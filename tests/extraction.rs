use labhosts::{extract, read_row, records_from_captures, HostRecord, Load};

fn cell(color: &str, align: &str, text: &str) -> String {
    format!(
        "<td style=\"background-color: {}; text-align:  {};\">{}</td>\n",
        color, align, text
    )
}

fn row(name: &str, marker: &str, uptime: &str, users: &str, load: &str) -> String {
    let mut s = String::from("<tr>\n");
    s.push_str(&cell("white", "left", name));
    s.push_str(&cell("yellow", "center", marker));
    s.push_str(&cell("white", "right", uptime));
    s.push_str(&cell("yellow", "right", users));
    s.push_str(&cell("white", "right", load));
    s.push_str("</tr>\n");
    s
}

fn page(rows: &[String]) -> String {
    let mut s = String::from("HTTP/1.1 200 OK\r\nContent-Type: text/html\r\n\r\n<html><body><table>\n");
    s.push_str("<tr><th>Host</th><th>Status</th></tr>\n");
    for r in rows {
        s.push_str(r);
    }
    s.push_str("</table></body></html>\n");
    s
}

fn host(name: &str, available: bool, uptime: &str, users: usize, mantissa: u128, scale: usize) -> HostRecord {
    HostRecord {
        name: name.to_string(),
        available,
        uptime: uptime.to_string(),
        users,
        load: Load { mantissa, scale },
    }
}

#[test]
fn extracts_one_well_formed_row() {
    let blob = page(&[row("zeus", "up", "3+01:02,4", "12", "0.42")]);
    let hosts = extract(&blob).unwrap();
    assert_eq!(hosts, vec![host("zeus", true, "3+01:02,4", 12, 42, 2)]);
}

#[test]
fn blob_without_rows_gives_no_records() {
    let blob = page(&[]);
    assert_eq!(extract(&blob), Some(vec![]));
    assert_eq!(extract(""), Some(vec![]));
}

#[test]
fn row_with_unreadable_load_is_dropped() {
    let blob = page(&[
        row("zeus", "up", "3+01:02,4", "12", "1.2.3"),
        row("hera", "up", "0+00:10,1", "2", "1.50"),
    ]);
    let hosts = extract(&blob).unwrap();
    assert_eq!(hosts, vec![host("hera", true, "0+00:10,1", 2, 150, 2)]);
}

#[test]
fn row_with_non_ascii_user_count_is_dropped() {
    let blob = page(&[
        row("zeus", "up", "1+00:00,0", "\u{0661}\u{0662}", "0.5"),
        row("hera", "down", "2+00:00,0", "3", "7"),
    ]);
    let hosts = extract(&blob).unwrap();
    assert_eq!(hosts, vec![host("hera", false, "2+00:00,0", 3, 7, 0)]);
}

#[test]
fn row_with_lone_point_load_is_dropped() {
    let blob = page(&[row("zeus", "up", "1+00:00,0", "1", ".")]);
    assert_eq!(extract(&blob), Some(vec![]));
}

#[test]
fn marker_other_than_up_means_unavailable() {
    let blob = page(&[
        row("a-1", "down", "0+00:00,0", "0", "0"),
        row("a-2", "UP", "0+00:00,0", "0", "0"),
        row("a-3", "up", "0+00:00,0", "0", "0"),
    ]);
    let hosts = extract(&blob).unwrap();
    let marks: Vec<bool> = hosts.iter().map(|h| h.available).collect();
    assert_eq!(marks, vec![false, false, true]);
}

#[test]
fn rows_keep_page_order() {
    let blob = page(&[
        row("c", "up", "1+00:00,0", "1", "3.2"),
        row("a", "up", "1+00:00,0", "2", "1.1"),
        row("b", "up", "1+00:00,0", "3", "5.0"),
    ]);
    let names: Vec<String> = extract(&blob).unwrap().into_iter().map(|h| h.name).collect();
    assert_eq!(names, vec!["c".to_string(), "a".to_string(), "b".to_string()]);
}

#[test]
fn shapeless_text_is_passed_over() {
    let mut blob = String::from("<tr>\n<td>zeus</td><td>up</td></tr>\n");
    blob.push_str(&row("zeus", "up", "3+01:02,4", "12", "0.42"));
    blob.push_str("<tr><td style=\"background-color: red; text-align:  left;\">x</td></tr>");
    let hosts = extract(&blob).unwrap();
    assert_eq!(hosts.len(), 1);
    assert_eq!(hosts[0].name, "zeus");
}

#[test]
fn extracting_twice_gives_equal_records() {
    let blob = page(&[
        row("zeus", "up", "3+01:02,4", "12", "0.42"),
        row("hera", "down", "0+00:10,1", "2", "1.50"),
    ]);
    let first = extract(&blob).unwrap();
    let second = extract(&blob).unwrap();
    assert_eq!(first, second);
    assert_eq!(first.len(), 2);
}

#[test]
fn read_row_needs_all_five_groups() {
    let full: Vec<Option<String>> = vec![
        Some("whole".to_string()),
        Some("zeus".to_string()),
        Some("up".to_string()),
        Some("1+00:00,0".to_string()),
        Some("4".to_string()),
        Some("2.25".to_string()),
    ];
    assert_eq!(read_row(&full), Some(host("zeus", true, "1+00:00,0", 4, 225, 2)));
    let mut missing = full.clone();
    missing[3] = None;
    assert_eq!(read_row(&missing), None);
    assert_eq!(read_row(&full[..5].to_vec()), None);
}

#[test]
fn records_from_captures_drops_unreadable_rows() {
    let good: Vec<Option<String>> = vec![
        Some(String::new()),
        Some("b".to_string()),
        Some("up".to_string()),
        Some("0+00:00,0".to_string()),
        Some("1".to_string()),
        Some("2".to_string()),
    ];
    let mut bad = good.clone();
    bad[4] = Some("99999999999999999999999999".to_string());
    let hosts = records_from_captures(&vec![bad, good]);
    assert_eq!(hosts, vec![host("b", true, "0+00:00,0", 1, 2, 0)]);
}
