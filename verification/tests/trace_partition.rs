use greptime_verified::trace_partition::{
    index_columns, partition_column, trace_partition_rule, ColumnDef, Edition, PartitionRules,
    Partitions,
};

struct Rules {
    fail: bool,
}

impl PartitionRules for Rules {
    type Expr = String;
    type RuleError = &'static str;

    fn partition_rule_for_hexstring(&self, column: &str) -> Result<Partitions<String>, &'static str> {
        if self.fail {
            return Err("no rule");
        }
        Ok(Partitions {
            column_list: vec![column.to_string()],
            exprs: vec![format!("{column} < '1'"), format!("{column} >= '1'")],
        })
    }

    fn partition_rules_for_u64(&self, column: &str) -> Vec<String> {
        vec![format!("{column} < 8")]
    }
}

fn columns(names: &[&str]) -> Vec<ColumnDef> {
    names
        .iter()
        .map(|name| ColumnDef { name: name.to_string() })
        .collect()
}

#[test]
fn the_community_edition_partitions_by_trace_id() {
    let cols = columns(&["trace_id", "greptime_trace_partition"]);
    let rule = trace_partition_rule(Edition::Community, &cols, &Rules { fail: false }).unwrap();
    assert_eq!(vec!["trace_id".to_string()], rule.column_list);
    assert_eq!(2, rule.exprs.len());
    assert_eq!("trace_id", partition_column(Edition::Community, &cols));
}

#[test]
fn the_enterprise_edition_partitions_by_a_column_of_its_own() {
    let cols = columns(&["trace_id", "greptime_trace_partition"]);
    let rule = trace_partition_rule(Edition::Enterprise, &cols, &Rules { fail: true }).unwrap();
    assert_eq!(vec!["greptime_trace_partition".to_string()], rule.column_list);
    assert_eq!(vec!["greptime_trace_partition < 8".to_string()], rule.exprs);
    assert_eq!(
        "greptime_trace_partition",
        partition_column(Edition::Enterprise, &cols)
    );
}

#[test]
fn the_enterprise_edition_without_that_column_partitions_by_trace_id() {
    let cols = columns(&["trace_id", "greptime_trace_partition_"]);
    let rule = trace_partition_rule(Edition::Enterprise, &cols, &Rules { fail: false }).unwrap();
    assert_eq!(vec!["trace_id".to_string()], rule.column_list);
    assert_eq!("trace_id", partition_column(Edition::Enterprise, &[]));
}

#[test]
fn a_failure_of_the_rule_is_passed_on() {
    let rule = trace_partition_rule(Edition::Community, &[], &Rules { fail: true });
    assert!(matches!(rule, Err("no rule")));
}

#[test]
fn the_index_columns_are_fixed() {
    let expected = vec!["trace_id", "parent_span_id", "service_name"];
    assert_eq!(expected, index_columns(&[]));
    assert_eq!(expected, index_columns(&columns(&["greptime_trace_partition"])));
}
