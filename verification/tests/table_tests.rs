use helyos_cli::panel::paint_segments;
use helyos_cli::table::{table_records, table_segments};

fn printed(headers: &[&str], rows: &[Vec<String>]) -> String {
    console::strip_ansi_codes(&paint_segments(&table_segments(headers, rows))).to_string()
}

#[test]
fn empty_table_says_so() {
    assert_eq!(printed(&["Name"], &[]), "No resources found.\n");
}

#[test]
fn columns_are_padded_and_upper_cased() {
    let out = printed(&["name", "scope"], &[vec!["ci".into(), "admin".into()], vec!["deploy-bot".into(), "-".into()]]);
    assert_eq!(out, "NAME        SCOPE\nci          admin\ndeploy-bot  -    \n");
}

#[test]
fn status_column_gets_a_dot() {
    let out = printed(&["Name", "Status"], &[vec!["web".into(), "Running".into()]]);
    assert_eq!(out, "NAME  STATUS \nweb   ● running\n");
}

#[test]
fn records_use_lowercased_headers() {
    let recs = table_records(&["Name", "Last Used"], &[vec!["ci".into(), "never".into(), "extra".into()]]);
    assert_eq!(recs.len(), 1);
    assert_eq!(
        recs[0],
        vec![
            ("name".to_string(), "ci".to_string()),
            ("last used".to_string(), "never".to_string()),
            ("".to_string(), "extra".to_string())
        ]
    );
}
