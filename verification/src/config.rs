//! Service configuration: TOML documents, read and written by the `toml` crate.

use vstd::prelude::*;

verus! {

/// A value of a TOML document. Nothing is known of its inside.
#[verifier::external_type_specification]
#[verifier::external_body]
pub struct ExTomlValue(toml::value::Value);

/// Why a text is no TOML document. Nothing is known of its inside.
#[verifier::external_type_specification]
#[verifier::external_body]
pub struct ExTomlReadError(toml::de::Error);

/// Why a table has no TOML text. Nothing is known of its inside.
#[verifier::external_type_specification]
#[verifier::external_body]
pub struct ExTomlWriteError(toml::ser::Error);

/// The table that `toml::from_slice` reads from a document, `None` where it reports an error.
pub uninterp spec fn toml_table(document: Seq<u8>) -> Option<Map<String, toml::value::Value>>;

/// The text that `toml::to_string` writes of a table, `None` where it reports an error.
pub uninterp spec fn toml_text(table: Map<String, toml::value::Value>) -> Option<Seq<char>>;

/// Calls `toml::from_slice` for a table. Claimed: the table, or the failure, is a function
/// of the bytes of the document alone. The parser descends into nested values by recursion, so
/// how deep a document may nest is a matter of the stack, of which nothing is stated.
#[verifier::external_body]
fn read_toml(document: &[u8]) -> (r: Result<toml::value::Table, toml::de::Error>)
    ensures
        r matches Ok(table) ==> toml_table(document@) == Some(table@),
        r is Err ==> toml_table(document@) is None,
{
    toml::from_slice(document)
}

/// Calls `toml::to_string` on a table. Claimed: the text, or the failure, is a function
/// of the entries of the table alone. It descends into nested values as the parser does.
#[verifier::external_body]
pub(crate) fn write_toml(table: &toml::value::Table) -> (r: Result<String, toml::ser::Error>)
    ensures
        r matches Ok(text) ==> toml_text(table@) == Some(text@),
        r is Err ==> toml_text(table@) is None,
{
    toml::to_string(table)
}

/// The configuration that a document stands for: its table, or no entry at all where the
/// document is malformed.
pub open spec fn config_of(table: Option<Map<String, toml::value::Value>>) -> Map<
    String,
    toml::value::Value,
> {
    match table {
        Some(entries) => entries,
        None => Map::empty(),
    }
}

/// The configuration that reading a document has led to.
pub fn config_or_empty(read: Result<toml::value::Table, toml::de::Error>) -> (r:
    toml::value::Table)
    ensures
        r@ == config_of(
            match read {
                Ok(table) => Some(table@),
                Err(_) => None,
            },
        ),
        read matches Ok(table) ==> r@ == table@,
        read is Err ==> r@ == Map::<String, toml::value::Value>::empty(),
{
    match read {
        Ok(table) => table,
        Err(_) => toml::value::Table::new(),
    }
}

/// The configuration that a document stands for.
pub fn read_config(document: &[u8]) -> (r: toml::value::Table)
    ensures
        r@ == config_of(toml_table(document@)),
        toml_table(document@) matches Some(table) ==> r@ == table,
        toml_table(document@) is None ==> r@ == Map::<String, toml::value::Value>::empty(),
{
    config_or_empty(read_toml(document))
}

} // verus!
