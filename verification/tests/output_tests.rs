use mobius::output::render_csv;

fn row(x: &str, y: &str, z: &str) -> (Vec<u8>, Vec<u8>, Vec<u8>) {
    (
        x.as_bytes().to_vec(),
        y.as_bytes().to_vec(),
        z.as_bytes().to_vec(),
    )
}

/// A coordinate field: an optional minus sign, at least one integer digit,
/// a point, and exactly six fractional digits.
fn is_coordinate_field(field: &str) -> bool {
    let digits = field.strip_prefix('-').unwrap_or(field);
    match digits.split_once('.') {
        Some((whole, frac)) => {
            !whole.is_empty()
                && whole.bytes().all(|b| b.is_ascii_digit())
                && frac.len() == 6
                && frac.bytes().all(|b| b.is_ascii_digit())
        }
        None => false,
    }
}

#[test]
fn csv_of_no_rows_is_header_only() {
    let out = render_csv(&vec![]);
    assert_eq!(out, b"x,y,z\n".to_vec());
}

#[test]
fn csv_layout_is_exact() {
    let rows = vec![
        row("1.000000", "0.000000", "0.000000"),
        row("-1.000000", "0.000000", "0.500000"),
    ];
    let out = render_csv(&rows);
    assert_eq!(
        out,
        b"x,y,z\n1.000000,0.000000,0.000000\n-1.000000,0.000000,0.500000\n".to_vec()
    );
}

#[test]
fn csv_first_line_is_header() {
    let rows = vec![row("0.000000", "12.250000", "-3.141593")];
    let out = render_csv(&rows);
    let text = String::from_utf8(out).unwrap();
    assert_eq!(text.lines().next(), Some("x,y,z"));
}

#[test]
fn csv_lines_hold_formatted_coordinates() {
    // Fields formatted as the writer formats them: six digits after the
    // decimal point.
    let values: [(f64, f64, f64); 3] = [
        (1.0, 0.0, 0.0),
        (-1.0, 1.2246467991473532e-16, 0.5),
        (0.9593353305514195, -0.28224001611973984, 0.24740395925452294),
    ];
    let rows: Vec<(Vec<u8>, Vec<u8>, Vec<u8>)> = values
        .iter()
        .map(|p| {
            row(
                &format!("{:.6}", p.0),
                &format!("{:.6}", p.1),
                &format!("{:.6}", p.2),
            )
        })
        .collect();
    let out = render_csv(&rows);
    let text = String::from_utf8(out).unwrap();
    let lines: Vec<&str> = text.lines().collect();
    assert_eq!(lines.len(), 1 + values.len());
    assert_eq!(lines[0], "x,y,z");
    for line in &lines[1..] {
        let fields: Vec<&str> = line.split(',').collect();
        assert_eq!(fields.len(), 3);
        for field in fields {
            assert!(is_coordinate_field(field), "bad field: {field}");
        }
    }
}
