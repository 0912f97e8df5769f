use elden_runes::count::RuneCount;
use elden_runes::Error;

#[test]
fn round_trip_all_counts() {
    let v = RuneCount::from_counts(vec![
        1, 0, 3, 0, 5, 0, 7, 0, 9, 0, 11, 0, 13, 0, 15, 0, 17, 0, 19, 20,
    ]);
    let text = v.to_text();
    assert_eq!(RuneCount::from_text(&text).unwrap(), v);
}

#[test]
fn round_trip_zero() {
    let v = RuneCount::zero();
    let text = v.to_text();
    assert_eq!(
        text,
        "0x Golden Rune [1]\n0x Golden Rune [2]\n0x Golden Rune [3]\n0x Golden Rune [4]\n\
         0x Golden Rune [5]\n0x Golden Rune [6]\n0x Golden Rune [7]\n0x Golden Rune [8]\n\
         0x Golden Rune [9]\n0x Golden Rune [10]\n0x Golden Rune [11]\n0x Golden Rune [12]\n\
         0x Golden Rune [13]\n0x Numen's Rune\n0x Hero's Rune [1]\n0x Hero's Rune [2]\n\
         0x Hero's Rune [3]\n0x Hero's Rune [4]\n0x Hero's Rune [5]\n0x Lord's Rune\n"
    );
    assert_eq!(RuneCount::from_text(&text).unwrap(), v);
}

#[test]
fn parse_accumulates_repeated_labels() {
    let parsed =
        RuneCount::from_text("2x Lord's Rune\n3x Lord's Rune\n1x Golden Rune [1]\n").unwrap();
    assert_eq!(parsed.get(19), 5);
    assert_eq!(parsed.get(0), 1);
    assert_eq!(parsed.total(), 5 * 50000 + 200);
}

#[test]
fn parse_without_final_newline() {
    let parsed = RuneCount::from_text("4x Numen's Rune").unwrap();
    assert_eq!(parsed.get(13), 4);
}

#[test]
fn parse_tolerates_carriage_returns() {
    let parsed = RuneCount::from_text("1x Golden Rune [2]\r\n2x Golden Rune [3]\r\n").unwrap();
    assert_eq!(parsed.get(1), 1);
    assert_eq!(parsed.get(2), 2);
}

#[test]
fn parse_missing_delimiter() {
    assert_eq!(
        RuneCount::from_text("0x Golden Rune [1]\nLord's Rune\n").unwrap_err(),
        Error::MalformedLine(1)
    );
}

#[test]
fn parse_bad_quantity() {
    assert_eq!(
        RuneCount::from_text("twox Lord's Rune\n").unwrap_err(),
        Error::MalformedLine(0)
    );
    assert_eq!(
        RuneCount::from_text("x Lord's Rune\n").unwrap_err(),
        Error::MalformedLine(0)
    );
    assert_eq!(
        RuneCount::from_text("99999999999x Lord's Rune\n").unwrap_err(),
        Error::MalformedLine(0)
    );
}

#[test]
fn parse_unknown_label() {
    assert_eq!(
        RuneCount::from_text("1x Golden Rune [1]\n2x Rusted Rune\n").unwrap_err(),
        Error::UnknownLabel(1)
    );
}

#[test]
fn format_as_list_plain() {
    let mut v = RuneCount::default();
    v.set_count(0, 1);
    v.set_count(5, 2);
    assert_eq!(
        v.format_as_list(false),
        "- 2x Golden Rune [6]\n- 1x Golden Rune [1]"
    );
}

#[test]
fn format_as_list_with_extras() {
    let mut v = RuneCount::default();
    v.set_count(0, 1);
    v.set_count(5, 2);
    assert_eq!(
        v.format_as_list(true),
        "- 2x Golden Rune [6] (giving 4000)\n- 1x Golden Rune [1] (giving 200)"
    );
}
