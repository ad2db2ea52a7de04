//! How tables of trace spans are partitioned and indexed.
use vstd::prelude::*;

verus! {

/// The column of trace ids.
pub const TRACE_ID_COLUMN: &'static str = "trace_id";

/// The column of the ids of parent spans.
pub const PARENT_SPAN_ID_COLUMN: &'static str = "parent_span_id";

/// The column of service names.
pub const SERVICE_NAME_COLUMN: &'static str = "service_name";

/// The column that the enterprise edition partitions traces by.
pub const ENT_TRACE_PARTITION_COLUMN: &'static str = "greptime_trace_partition";

/// The edition of the database.
#[derive(Debug, Clone, Copy, PartialEq, Eq, Structural)]
pub enum Edition {
    /// The community edition.
    Community,
    /// The enterprise edition.
    Enterprise,
}

/// The definition of a column.
#[derive(Debug)]
pub struct ColumnDef {
    /// The name of the column.
    pub name: String,
}

/// A partition rule: expressions over columns.
#[derive(Debug)]
pub struct Partitions<X> {
    /// The names of the columns.
    pub column_list: Vec<String>,
    /// The expressions, one for each partition.
    pub exprs: Vec<X>,
}

/// Makes partition expressions over a column.
pub trait PartitionRules {
    /// A partition expression.
    type Expr;

    /// Why there is no partition rule.
    type RuleError;

    /// Returns the partition rule over a column of hexadecimal strings.
    fn partition_rule_for_hexstring(&self, column: &str) -> Result<
        Partitions<Self::Expr>,
        Self::RuleError,
    >;

    /// Returns the partition expressions over a column of unsigned integers.
    fn partition_rules_for_u64(&self, column: &str) -> Vec<Self::Expr>;
}

/// Whether one of the columns has a name.
pub open spec fn has_column(col_defs: Seq<ColumnDef>, name: Seq<char>) -> bool {
    exists|i: int| 0 <= i < col_defs.len() && (#[trigger] col_defs[i]).name@ == name
}

/// Returns whether one of the columns has a name.
fn any_column(col_defs: &[ColumnDef], name: &str) -> (found: bool)
    ensures
        found == has_column(col_defs@, name@),
{
    let wanted = name.to_owned();
    let mut i: usize = 0;
    while i < col_defs.len()
        invariant
            wanted@ == name@,
            i <= col_defs@.len(),
            forall|j: int| 0 <= j < i ==> (#[trigger] col_defs@[j]).name@ != name@,
        decreases col_defs@.len() - i,
    {
        if col_defs[i].name == wanted {
            return true;
        }
        i += 1;
    }
    false
}

/// Whether traces are partitioned by a column of their own: in the enterprise
/// edition, where the table has that column.
pub open spec fn has_partition_column(edition: Edition, col_defs: Seq<ColumnDef>) -> bool {
    edition == Edition::Enterprise && has_column(col_defs, ENT_TRACE_PARTITION_COLUMN@)
}

/// Returns the column that traces are partitioned by.
pub fn partition_column(edition: Edition, col_defs: &[ColumnDef]) -> (column: &'static str)
    ensures
        column@ == if has_partition_column(edition, col_defs@) {
            ENT_TRACE_PARTITION_COLUMN@
        } else {
            TRACE_ID_COLUMN@
        },
        edition == Edition::Enterprise && (exists|i: int|
            0 <= i < col_defs@.len() && (#[trigger] col_defs@[i]).name@
                == "greptime_trace_partition"@) ==> column@ == "greptime_trace_partition"@,
        edition == Edition::Community || (forall|i: int|
            0 <= i < col_defs@.len() ==> (#[trigger] col_defs@[i]).name@
                != "greptime_trace_partition"@) ==> column@ == "trace_id"@,
{
    if edition == Edition::Enterprise && any_column(col_defs, ENT_TRACE_PARTITION_COLUMN) {
        ENT_TRACE_PARTITION_COLUMN
    } else {
        TRACE_ID_COLUMN
    }
}

/// Returns the partition rule of a table of traces: over the column of its own
/// that the enterprise edition has for it, if it is there, and otherwise over
/// the trace ids.
pub fn trace_partition_rule<R: PartitionRules>(
    edition: Edition,
    col_defs: &[ColumnDef],
    rules: &R,
) -> (rule: Result<Partitions<R::Expr>, R::RuleError>)
    ensures
        if has_partition_column(edition, col_defs@) {
            &&& rule matches Ok(partitions)
            &&& partitions.column_list@.len() == 1
            &&& partitions.column_list@[0]@ == ENT_TRACE_PARTITION_COLUMN@
            &&& call_ensures(
                R::partition_rules_for_u64,
                (rules, ENT_TRACE_PARTITION_COLUMN),
                partitions.exprs,
            )
        } else {
            call_ensures(R::partition_rule_for_hexstring, (rules, TRACE_ID_COLUMN), rule)
        },
        edition == Edition::Enterprise && (exists|i: int|
            0 <= i < col_defs@.len() && (#[trigger] col_defs@[i]).name@
                == "greptime_trace_partition"@) ==> {
            &&& rule matches Ok(partitions)
            &&& partitions.column_list@.len() == 1
            &&& partitions.column_list@[0]@ == "greptime_trace_partition"@
            &&& call_ensures(
                R::partition_rules_for_u64,
                (rules, "greptime_trace_partition"),
                partitions.exprs,
            )
        },
        edition == Edition::Community || (forall|i: int|
            0 <= i < col_defs@.len() ==> (#[trigger] col_defs@[i]).name@
                != "greptime_trace_partition"@) ==> call_ensures(
            R::partition_rule_for_hexstring,
            (rules, "trace_id"),
            rule,
        ),
{
    if edition == Edition::Enterprise && any_column(col_defs, ENT_TRACE_PARTITION_COLUMN) {
        Ok(
            Partitions {
                column_list: vec![ENT_TRACE_PARTITION_COLUMN.to_owned()],
                exprs: rules.partition_rules_for_u64(ENT_TRACE_PARTITION_COLUMN),
            },
        )
    } else {
        rules.partition_rule_for_hexstring(TRACE_ID_COLUMN)
    }
}

/// Returns the columns of a table of traces that have an index, whatever its
/// other columns are.
pub fn index_columns<'a>(_col_defs: &[ColumnDef]) -> (columns: Vec<&'a str>)
    ensures
        columns@.len() == 3,
        columns@[0]@ == TRACE_ID_COLUMN@,
        columns@[1]@ == PARENT_SPAN_ID_COLUMN@,
        columns@[2]@ == SERVICE_NAME_COLUMN@,
        columns@[0]@ == "trace_id"@ && columns@[1]@ == "parent_span_id"@ && columns@[2]@
            == "service_name"@,
{
    vec![TRACE_ID_COLUMN, PARENT_SPAN_ID_COLUMN, SERVICE_NAME_COLUMN]
}

/// The enterprise edition partitions traces by a column of their own exactly if
/// the table has a column of that name, whatever its other columns are.
pub proof fn law_partition_column_is_used_if_there(col_defs: Seq<ColumnDef>)
    ensures
        has_partition_column(Edition::Enterprise, col_defs) <==> exists|i: int|
            0 <= i < col_defs.len() && (#[trigger] col_defs[i]).name@
                == "greptime_trace_partition"@,
{
}

/// Further columns never keep a table from being partitioned by its own column,
/// and a column of another name never makes it so.
pub proof fn law_other_columns_do_not_matter(
    edition: Edition,
    col_defs: Seq<ColumnDef>,
    other: ColumnDef,
)
    requires
        other.name@ != "greptime_trace_partition"@,
    ensures
        has_partition_column(edition, col_defs.push(other)) == has_partition_column(
            edition,
            col_defs,
        ),
{
    let more = col_defs.push(other);
    if has_partition_column(edition, col_defs) {
        let i = choose|i: int|
            0 <= i < col_defs.len() && (#[trigger] col_defs[i]).name@
                == ENT_TRACE_PARTITION_COLUMN@;
        assert(more[i] == col_defs[i]);
    }
    if has_partition_column(edition, more) {
        let i = choose|i: int|
            0 <= i < more.len() && (#[trigger] more[i]).name@ == ENT_TRACE_PARTITION_COLUMN@;
        assert(more[i] == col_defs[i]);
    }
}

/// The community edition partitions traces by their ids, whatever columns the
/// table has.
pub proof fn law_community_ignores_columns(col_defs: Seq<ColumnDef>)
    ensures
        !has_partition_column(Edition::Community, col_defs),
{
}

/// In which order columns are defined does not matter, nor how often: only
/// which names there are.
pub proof fn law_only_names_matter(edition: Edition, a: Seq<ColumnDef>, b: Seq<ColumnDef>)
    requires
        forall|name: Seq<char>| #[trigger] has_column(a, name) == has_column(b, name),
    ensures
        has_partition_column(edition, a) == has_partition_column(edition, b),
{
}

} // verus!
