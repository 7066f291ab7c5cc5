use pgdog::schema::collapse::{Collapsed, LOG_CHARS};

fn collapsed(sql: &str) -> String {
    Collapsed(sql).render()
}

#[test]
fn test_collapsed_joins_lines_with_one_space() {
    assert_eq!(
        collapsed(
            r#"CREATE TABLE test
    (id bigint,

     name text)"#
        ),
        "CREATE TABLE test (id bigint, name text)"
    );
}

#[test]
fn test_collapsed_drops_comments_and_blank_lines() {
    assert_eq!(
        collapsed(
            r#"-- a comment
SELECT 1

   -- another
FROM t"#
        ),
        "SELECT 1 FROM t"
    );
}

#[test]
fn test_collapsed_has_no_space_inside_brackets() {
    assert_eq!(
        collapsed(
            r#"CREATE TYPE geo AS (
    lat numeric(9,6),
    lon numeric(9,6)
)"#
        ),
        "CREATE TYPE geo AS (lat numeric(9,6), lon numeric(9,6))"
    );
    assert_eq!(
        collapsed(
            r#"SELECT tags[
    1
]"#
        ),
        "SELECT tags[1]"
    );
}

#[test]
fn test_collapsed_has_no_space_before_comma_or_semicolon() {
    assert_eq!(
        collapsed(
            r#"SELECT a
,
b
;"#
        ),
        "SELECT a, b;"
    );
}

#[test]
fn test_collapsed_trims_edges() {
    assert_eq!(
        collapsed(
            r#"
   SELECT 1

"#
        ),
        "SELECT 1"
    );
    assert_eq!(
        collapsed(
            r#"

"#
        ),
        ""
    );
}

#[test]
fn test_collapsed_treats_tabs_as_spaces() {
    assert_eq!(collapsed("\tSELECT\t\t1\t"), "SELECT 1");
}

#[test]
fn test_collapsed_truncates_long_sql() {
    let long = format!("SELECT {}", "a".repeat(500));
    let collapsed = collapsed(&long);

    assert!(collapsed.starts_with("SELECT aaa"));
    assert!(collapsed.ends_with('…'));
    assert_eq!(collapsed.chars().count(), LOG_CHARS + 1);
}

#[test]
fn test_collapsed_keeps_sql_at_the_limit_whole() {
    let exact = "a".repeat(LOG_CHARS);

    assert_eq!(collapsed(&exact), exact);
}

#[test]
fn collapsed_text_has_no_double_space() {
    let text = collapsed("  SELECT   a  ,\n\n b \r\n FROM\tt  ");
    assert_eq!(text, "SELECT a, b FROM t");
    assert!(!text.contains("  "));
}

#[test]
fn collapsed_treats_wide_spaces_as_spaces() {
    assert_eq!(collapsed("SELECT\u{00a0}1\u{3000}+ 2"), "SELECT 1 + 2");
}

#[test]
fn collapsed_text_is_bounded() {
    let one_over = "b".repeat(LOG_CHARS + 1);
    let text = collapsed(&one_over);
    assert_eq!(text.chars().count(), LOG_CHARS + 1);
    assert_eq!(text, format!("{}…", "b".repeat(LOG_CHARS)));
}

#[test]
fn collapsing_once_is_enough() {
    let long = format!("SELECT {}", "ab (c, d) ".repeat(50));
    for source in [
        "CREATE TABLE t (\n  id bigint,\n  -- key\n  name text\n);",
        "-\n-- a comment\n-- another\n)",
        "",
        long.as_str(),
    ] {
        let once = collapsed(source);
        assert_eq!(collapsed(&once), once);
        assert!(!once.contains('\n'));
    }
}
