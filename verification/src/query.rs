//! Configuration of the adapter and the parameters of its store calls.

use vstd::prelude::*;

verus! {

/// Explicit configuration of the transaction repository: the table the
/// events are kept in, or nothing to use the named default.
pub struct RepositoryConfig {
    pub table_name: Option<String>,
}

impl RepositoryConfig {
    /// The configured table name, or the fallback name when none is set.
    pub fn table_name_or_default(self) -> (name: String)
        ensures
            self.table_name matches Some(n) ==> name@ == n@,
            self.table_name is None ==> name@ == "TABLE_NAME"@,
    {
        match self.table_name {
            Some(n) => n,
            None => "TABLE_NAME".to_owned(),
        }
    }
}

/// The parameters of the latest-event query: a key-equality condition on
/// the partition attribute, at most one result, and a reversed scan so
/// that the one result is the most recent item of the source.
pub struct LatestEventQuery {
    pub table_name: String,
    pub key_attribute: String,
    pub name_placeholder: String,
    pub value_placeholder: String,
    pub key_condition: String,
    pub source: String,
    pub limit: u32,
    pub scan_forward: bool,
}

/// Builds the latest-event query for `source` against `table_name`.
pub fn build_latest_query(table_name: String, source: String) -> (q: LatestEventQuery)
    ensures
        q.table_name@ == table_name@,
        q.source@ == source@,
        q.key_attribute@ == "source"@,
        q.name_placeholder@ == "#source"@,
        q.value_placeholder@ == ":source"@,
        q.key_condition@ == "#source = :source"@,
        q.limit == 1,
        q.scan_forward == false,
{
    LatestEventQuery {
        table_name,
        key_attribute: "source".to_owned(),
        name_placeholder: "#source".to_owned(),
        value_placeholder: ":source".to_owned(),
        key_condition: "#source = :source".to_owned(),
        source,
        limit: 1,
        scan_forward: false,
    }
}

} // verus!
