use viewer_core::number::{Double, Single};
use viewer_core::sample::{test_pdf, test_pdf_with_attributes};
use viewer_core::text::{
    after_last_dot, first_line, has_line_break, matches_ignoring_case, prefix, push_decimal,
    same_text, trim, white_space,
};

fn single(x: f32) -> Single {
    Single { bits: x.to_bits() }
}

#[test]
fn numbers_compare_as_their_values_do() {
    let values = [
        f32::NEG_INFINITY,
        -2.5,
        -f32::MIN_POSITIVE,
        -0.,
        0.,
        1e-40,
        1.,
        1.5,
        f32::MAX,
        f32::INFINITY,
        f32::NAN,
    ];
    for x in values {
        assert_eq!(single(x).is_finite(), x.is_finite());
        assert_eq!(single(x).is_nan(), x.is_nan());
        assert_eq!(single(x).is_finite_positive(), x.is_finite() && x > 0.);
        for y in values {
            assert_eq!(single(x).is_less(single(y)), x < y, "{x} < {y}");
            assert_eq!(single(x).is_equal(single(y)), x == y, "{x} == {y}");
        }
        let clamped = f32::from_bits(single(x).clamp_to(single(0.1), single(8.)).bits);
        if x.is_nan() {
            assert!(clamped.is_nan());
        } else {
            assert_eq!(clamped, x.clamp(0.1, 8.));
        }
        assert_eq!(
            Double { bits: f64::from(x).to_bits() }.is_finite(),
            x.is_finite()
        );
    }
    assert!(Double { bits: f64::MAX.to_bits() }.is_finite());
}

#[test]
fn decimals_are_appended() {
    for n in [0, 7, 10, 99, 100, 1234567890, u64::MAX] {
        let mut text = "n=".to_owned();
        push_decimal(&mut text, n);
        assert_eq!(text, format!("n={n}"));
    }
}

#[test]
fn white_space_is_what_unicode_says() {
    for u in 0..=0x10ffff {
        if let Some(c) = char::from_u32(u) {
            assert_eq!(white_space(c), c.is_whitespace(), "{u:x}");
        }
    }
}

#[test]
fn text_is_trimmed() {
    for text in ["", " ", " a b\n", "\u{2003}ä\u{a0}", "abc", "\t\n x"] {
        assert_eq!(trim(text), text.trim());
    }
}

#[test]
fn lines_are_found() {
    assert_eq!(first_line("subject\nbody\n"), "subject");
    assert_eq!(first_line("\nbody"), "");
    assert_eq!(first_line("only"), "only");
    assert_eq!(first_line(""), "");
    assert!(has_line_break("a\nb") && !has_line_break("a\rb"));
}

#[test]
fn extensions_are_found() {
    assert_eq!(after_last_dot("a.tar.gz"), "gz");
    assert_eq!(after_last_dot("Makefile"), "Makefile");
    assert_eq!(after_last_dot("dir.d/"), "d/");
    assert_eq!(after_last_dot("a."), "");
    assert!(matches_ignoring_case("PnG", "png"));
    assert!(!matches_ignoring_case("pngx", "png"));
    assert!(!matches_ignoring_case("ÄB", "äb"));
    assert!(same_text("é", "é") && !same_text("e", "é"));
}

#[test]
fn prefixes_end_at_characters() {
    for text in ["1111111111", "123", "", "aé", "éa", "123456ü8"] {
        for n in 0..12 {
            assert_eq!(prefix(text, n), text.get(0..n).unwrap_or(text), "{text} {n}");
        }
    }
}

fn expected_pdf(pages: &[(u32, u32, &str)], attributes: &str, text: bool) -> Vec<u8> {
    let mut objects = vec![
        "<< /Type /Catalog /Pages 2 0 R >>".to_owned(),
        format!(
            "<< /Type /Pages /Count {} /Kids [{}] >>",
            pages.len(),
            (0..pages.len())
                .map(|index| format!("{} 0 R", 3 + index * 2))
                .collect::<Vec<_>>()
                .join(" ")
        ),
    ];
    for (index, (width, height, color)) in pages.iter().enumerate() {
        objects.push(format!("<< /Type /Page /Parent 2 0 R /MediaBox [0 0 {width} {height}] {attributes} /Resources << /Font << /F1 << /Type /Font /Subtype /Type1 /BaseFont /Helvetica >> >> >> /Contents {} 0 R >>", 4 + index * 2));
        let mut content = format!("{color} rg 0 0 {width} {height} re f");
        if text {
            content.push_str(" 0 0 0 rg BT /F1 20 Tf 10 30 Td (Native PDF preview) Tj ET");
        }
        objects.push(format!(
            "<< /Length {} >>\nstream\n{content}\nendstream",
            content.len()
        ));
    }
    let mut pdf = "%PDF-1.7\n".to_owned();
    let mut offsets = Vec::new();
    for (index, object) in objects.iter().enumerate() {
        offsets.push(pdf.len());
        pdf.push_str(&format!("{} 0 obj\n{object}\nendobj\n", index + 1));
    }
    let xref = pdf.len();
    pdf.push_str(&format!(
        "xref\n0 {}\n0000000000 65535 f \n",
        objects.len() + 1
    ));
    for offset in offsets {
        pdf.push_str(&format!("{offset:010} 00000 n \n"));
    }
    pdf.push_str(&format!(
        "trailer\n<< /Size {} /Root 1 0 R >>\nstartxref\n{xref}\n%%EOF\n",
        objects.len() + 1
    ));
    pdf.into_bytes()
}

#[test]
fn sample_files_are_written_byte_for_byte() {
    let pages = [(100, 200, "1 0 0"), (4294967295, 0, "0 0 1"), (7, 8, "0.5 0.5 0.5")];
    for count in 0..=pages.len() {
        assert_eq!(test_pdf(&pages[..count]), expected_pdf(&pages[..count], "", false));
        assert_eq!(
            test_pdf_with_attributes(&pages[..count], "/Rotate 90", true),
            expected_pdf(&pages[..count], "/Rotate 90", true)
        );
    }
}
