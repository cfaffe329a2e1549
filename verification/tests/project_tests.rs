use kaku::canvas::Canvas;
use kaku::cell::Rgb;
use kaku::project::{days_to_date, format_timestamp, Project};
use kaku::symmetry::SymmetryMode;
use kaku::tools::ToolKind;

#[test]
fn project_new_records_state() {
    let mut canvas = Canvas::new_with_size(16, 16);
    canvas.set(1, 1, kaku::cell::Cell { ch: kaku::blocks::FULL, fg: Some(Rgb::new(9, 9, 9)), bg: None });
    let p = Project::new("piece", canvas, Rgb::new(1, 2, 3), SymmetryMode::Quad);
    assert_eq!(p.version, 5);
    assert_eq!(p.name, "piece");
    assert_eq!(p.color, Rgb::new(1, 2, 3));
    assert_eq!(p.symmetry, SymmetryMode::Quad);
    assert_eq!(p.canvas.width, 16);
    assert_eq!(p.created_at, p.modified_at);
    // The stamp has the fixed shape YYYY-MM-DDThh:mm:ssZ.
    assert_eq!(p.created_at.len(), 20);
    assert!(p.created_at.ends_with('Z'));
}

#[test]
fn timestamp_formats_known_moments() {
    assert_eq!(format_timestamp(0), "1970-01-01T00:00:00Z");
    assert_eq!(format_timestamp(86399), "1970-01-01T23:59:59Z");
    assert_eq!(format_timestamp(1_700_000_000), "2023-11-14T22:13:20Z");
    // A leap day.
    assert_eq!(format_timestamp(951_827_696), "2000-02-29T12:34:56Z");
}

#[test]
fn days_to_date_handles_epoch_and_leap_years() {
    assert_eq!(days_to_date(0), (1970, 1, 1));
    assert_eq!(days_to_date(365), (1971, 1, 1));
    // 2000-02-29 is day 11016 since the epoch.
    assert_eq!(days_to_date(11016), (2000, 2, 29));
}

#[test]
fn tool_kinds_have_names_icons_keys() {
    assert_eq!(ToolKind::Pencil.name(), "Pencil");
    assert_eq!(ToolKind::Eraser.name(), "Eraser");
    assert_eq!(ToolKind::Line.name(), "Line");
    assert_eq!(ToolKind::Rectangle.name(), "Rect");
    assert_eq!(ToolKind::Fill.name(), "Fill");
    assert_eq!(ToolKind::Eyedropper.name(), "Pick");
    assert_eq!(ToolKind::Pencil.key(), "P");
    assert_eq!(ToolKind::Fill.key(), "F");
    assert_eq!(ToolKind::all().len(), 6);
    assert_eq!(ToolKind::Pencil.icon(), "\u{270F}");
}
