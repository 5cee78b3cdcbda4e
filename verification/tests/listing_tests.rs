use dd3::docker::listing::{field_entries, parse_ps_line, parse_ps_listing, snapshot_of_record, PsRecord};
use dd3::text::{split_on, text_lines_of, trim_str};
use dd3::theme::Status;

fn rec(id: &str, name: &str, state: &str, networks: &str, mounts: &str) -> PsRecord {
    PsRecord {
        id: id.to_string(),
        name: name.to_string(),
        state: state.to_string(),
        networks: networks.to_string(),
        mounts: mounts.to_string(),
    }
}

#[test]
fn split_on_keeps_empty_pieces() {
    assert_eq!(split_on("a,,b", ','), vec!["a", "", "b"]);
    assert_eq!(split_on("", ','), vec![""]);
    assert_eq!(split_on(",", ','), vec!["", ""]);
}

#[test]
fn trim_str_drops_surrounding_white_space() {
    assert_eq!(trim_str(" \t hi there \n"), "hi there");
    assert_eq!(trim_str("   "), "");
    assert_eq!(trim_str("x"), "x");
    assert_eq!(trim_str("\u{3000}wide\u{a0}"), "wide");
}

#[test]
fn text_lines_follow_str_lines() {
    assert_eq!(text_lines_of("a\r\nb\n"), vec!["a", "b"]);
    assert!(text_lines_of("").is_empty());
    assert_eq!(text_lines_of("a\n\nb"), vec!["a", "", "b"]);
    assert_eq!(text_lines_of("tail\r"), vec!["tail\r"]);
    for text in ["x\ny\r\n", "\n\n", "one", "a\r\n\r\nb\r"] {
        let expected: Vec<String> = text.lines().map(|l| l.to_string()).collect();
        assert_eq!(text_lines_of(text), expected);
    }
}

#[test]
fn ps_line_with_five_fields_is_a_row() {
    let r = parse_ps_line("abc|web|running|net1,net0|/a,/b").unwrap();
    assert_eq!(r, rec("abc", "web", "running", "net1,net0", "/a,/b"));
}

#[test]
fn ps_line_fifth_field_takes_the_rest() {
    let r = parse_ps_line("id|n|exited|net|m1|m2").unwrap();
    assert_eq!(r.mounts, "m1|m2");
}

#[test]
fn ps_line_short_or_without_id_is_skipped() {
    assert_eq!(parse_ps_line("id|n|s|net"), None);
    assert_eq!(parse_ps_line("|n|s|net|m"), None);
    assert_eq!(parse_ps_line(""), None);
}

#[test]
fn ps_listing_sorted_by_name_and_skips_junk() {
    let text = "b1|zeta|running|n|\r\na1|alpha|exited|n|\n\nnot a row\n";
    let rows = parse_ps_listing(text);
    assert_eq!(rows, vec![rec("a1", "alpha", "exited", "n", ""), rec("b1", "zeta", "running", "n", "")]);
}

#[test]
fn ps_listing_sort_is_stable() {
    let text = "x1|same|running|n|\nx0|first|running|n|\nx2|same|paused|n|";
    let rows = parse_ps_listing(text);
    let ids: Vec<&str> = rows.iter().map(|r| r.id.as_str()).collect();
    assert_eq!(ids, vec!["x0", "x1", "x2"]);
}

#[test]
fn ps_listing_empty_text_has_no_rows() {
    assert!(parse_ps_listing("").is_empty());
}

#[test]
fn field_entries_trim_and_drop_empty() {
    assert_eq!(field_entries(" zeta , alpha ,,"), vec!["zeta", "alpha"]);
    assert!(field_entries("").is_empty());
}

#[test]
fn snapshot_of_record_groups_under_first_network() {
    let s = snapshot_of_record(&rec("id9", "db", "running", " zeta , alpha ,,", "/a, /b,,"));
    assert_eq!(s.id, "id9");
    assert_eq!(s.name, "db");
    assert_eq!(s.status, Status::Running);
    assert_eq!(s.group_key, "alpha");
    assert_eq!(s.mount_count, 2);
    assert!(s.ports.is_empty());
}

#[test]
fn snapshot_of_record_without_networks_is_none_group() {
    let s = snapshot_of_record(&rec("id1", "cache", "exited", "", ""));
    assert_eq!(s.group_key, "none");
    assert_eq!(s.mount_count, 0);
    assert_eq!(s.status, Status::Stopped);
    let dead = snapshot_of_record(&rec("id2", "w", "dead", "bridge", "/v"));
    assert_eq!(dead.status, Status::Crashed);
    assert_eq!(dead.group_key, "bridge");
    assert_eq!(dead.mount_count, 1);
}
