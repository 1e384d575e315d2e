use utiles::metadata::{fill_minzoom_maxzoom, metadata_zooms_present, parse_u8, MbtMetadataRow};

fn row(name: &str, value: &str) -> MbtMetadataRow {
    MbtMetadataRow {
        name: name.to_string(),
        value: value.to_string(),
    }
}

fn pairs(rows: &[MbtMetadataRow]) -> Vec<(String, String)> {
    rows.iter()
        .map(|r| (r.name.clone(), r.value.clone()))
        .collect()
}

#[test]
fn parse_u8_reads_like_std() {
    for s in ["0", "7", "12", "+7", "255", "007", "256", "", "+", "-1", "1a", " 1", "1000"] {
        assert_eq!(parse_u8(s), s.parse::<u8>().ok(), "input {:?}", s);
    }
    assert_eq!(parse_u8("12"), Some(12));
    assert_eq!(parse_u8("+7"), Some(7));
    assert_eq!(parse_u8("255"), Some(255));
    assert_eq!(parse_u8("256"), None);
    assert_eq!(parse_u8(""), None);
    assert_eq!(parse_u8("-1"), None);
}

#[test]
fn zooms_present_needs_both_readable() {
    assert!(metadata_zooms_present(&vec![row("minzoom", "0"), row("maxzoom", "14")]));
    assert!(!metadata_zooms_present(&vec![row("minzoom", "0")]));
    assert!(!metadata_zooms_present(&vec![row("minzoom", "0"), row("maxzoom", "x")]));
    assert!(!metadata_zooms_present(&vec![]));
    // the first row of a name is the one that counts
    assert!(!metadata_zooms_present(&vec![
        row("minzoom", "bad"),
        row("minzoom", "1"),
        row("maxzoom", "2"),
    ]));
}

#[test]
fn fill_adds_range_when_missing() {
    let rows = vec![row("name", "world")];
    let filled = fill_minzoom_maxzoom(rows, Some((2, 9)));
    assert_eq!(
        pairs(&filled),
        vec![
            ("name".to_string(), "world".to_string()),
            ("minzoom".to_string(), "2".to_string()),
            ("maxzoom".to_string(), "9".to_string()),
        ]
    );
}

#[test]
fn fill_keeps_rows_when_present_or_unknown() {
    let rows = vec![row("minzoom", "1"), row("maxzoom", "3")];
    let filled = fill_minzoom_maxzoom(rows, Some((0, 12)));
    assert_eq!(
        pairs(&filled),
        vec![
            ("minzoom".to_string(), "1".to_string()),
            ("maxzoom".to_string(), "3".to_string()),
        ]
    );
    let rows = vec![row("name", "x")];
    let filled = fill_minzoom_maxzoom(rows, None);
    assert_eq!(pairs(&filled), vec![("name".to_string(), "x".to_string())]);
    let rows = vec![row("minzoom", "1"), row("maxzoom", "300")];
    let filled = fill_minzoom_maxzoom(rows, Some((0, 12)));
    assert_eq!(filled.len(), 4);
    assert_eq!(filled[2].value, "0");
    assert_eq!(filled[3].value, "12");
}
