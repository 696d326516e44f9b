use hayro::hayro_syntax::Pdf;
use viewer_core::interaction::{try_extract_page_content, PageRect, TextDevice};
use viewer_core::number::{Double, Single};
use viewer_core::parameters::is_readable;
use viewer_core::pdf::{is_readable_document, DeviceRect};
use viewer_core::renderer::{LoadError, Renderer};
use viewer_core::sample::{test_pdf, test_pdf_with_attributes};

/// A stream of objects with these entries.
fn object_stream(entries: &str) -> String {
    format!("\n5 0 obj\n<< /Type /ObjStm {entries} >>\nstream\n\nendstream\nendobj\n")
}

/// A stream with these entries that holds no objects.
fn plain_stream(number: &str, entries: &str) -> String {
    format!("\n{number} 0 obj\n<< {entries} >>\nstream\n\nendstream\nendobj\n")
}

/// A cross-reference table by which the stream 7 holds an object.
fn table(widths: &str) -> String {
    format!("\n3 0 obj\n<< /W {widths} /Length 3 >>\nstream\n\u{2}\u{7}\u{0}\nendstream\nendobj\n")
}

fn reads(text: &str) -> bool {
    is_readable(text.as_bytes())
}

/// Whether a stream of objects can have these parameters.
fn parameters_fit(parameters: &str) -> bool {
    reads(&object_stream(&format!("/Filter /FlateDecode /DecodeParms << {parameters} >>")))
}

/// Parameters on which the reader fails.
const FAILING: &str = "/Filter /LZWDecode /DecodeParms << /Predictor 2 /Columns 0 >>";

fn narrow(x: Double) -> Single {
    Single {
        bits: (f64::from_bits(x.bits) as f32).to_bits(),
    }
}

fn to_page(rect: DeviceRect) -> PageRect {
    PageRect {
        x0: narrow(rect.x0),
        y0: narrow(rect.y0),
        x1: narrow(rect.x1),
        y1: narrow(rect.y1),
    }
}

#[test]
fn ordinary_parameters_can_be_read() {
    assert!(is_readable(&[]));
    assert!(is_readable(&test_pdf(&[(100, 200, "1 0 0")])));
    assert!(parameters_fit(""));
    assert!(parameters_fit("/Columns 5 /Predictor 12"));
    assert!(parameters_fit("/Predictor 2 /Colors 3 /BitsPerComponent 8/Columns 1728"));
    assert!(parameters_fit("/Predictor 2 /Columns 000000000000000000001728 "));
    assert!(parameters_fit("/Predictor 2 /Colors 16"));
    assert!(parameters_fit("/Predictor 2 /Columns 16777215 /Colors 15 /BitsPerComponent 16"));
    assert!(parameters_fit("/Predictor 12 /Columns 0 /Colors 0 /BitsPerComponent 0"));
    assert!(parameters_fit("/Columns 0 /Colors 0 /BitsPerComponent 0"));
    assert!(parameters_fit("/Predictor 1 /Columns 0 /Colors 5 0 R"));
    assert!(parameters_fit("/Predictor 300 /Columns 0"));
    assert!(parameters_fit("/Predictor 2 /ColumnCount 0 /Column 0 /Columns2 0 /Colorants 0"));
    assert!(parameters_fit("/Predictor 2 /A /Columns /B /Colors (0) /C (/Columns 0)"));
    assert!(parameters_fit("/Predictor 2 /Other << /Columns 0 >> /More [/Columns 0]"));
    assert!(parameters_fit("/Predictor 2 /Columns 0 /Columns 5"));
}

#[test]
fn empty_rows_are_found() {
    assert!(!parameters_fit("/Predictor 2 /Columns 0"));
    assert!(!parameters_fit("/Predictor 9 /Colors 0"));
    assert!(!parameters_fit("/Predictor 0 /BitsPerComponent 0"));
    assert!(!parameters_fit("/Predictor 2 /Columns%\n% 5\r\t0/A null"));
    assert!(!parameters_fit("/Predictor 2 /Columns 0.5"));
    assert!(!parameters_fit("/Predictor 2 /Columns -0"));
    assert!(!parameters_fit("/Predictor 2 /Columns ."));
    assert!(!parameters_fit("/#50redictor 2 /Col#75mns 0"));
    assert!(!parameters_fit("/Predictor 2 /A 5 0 R /Columns 0"));
    assert!(!parameters_fit("/Predictor 2 (garbage) [1 2] << /A 1 >> 7 /Columns 0"));
    assert!(!parameters_fit("/Predictor 2 /Columns 5 /Columns 0"));
    assert!(!parameters_fit("/Predictor 2 /Columns 5 0 R"));
    assert!(!parameters_fit("/Predictor 5 0 R /Columns 0"));
}

#[test]
fn long_rows_are_found() {
    assert!(!parameters_fit("/Predictor 12 /Columns 16777216"));
    assert!(!parameters_fit("/Predictor 2 /Columns 99999999999999999999999999999999999999999999"));
    assert!(!parameters_fit("/Predictor 12 /Colors 32"));
    assert!(!parameters_fit("/Predictor 12 /Colors 16 /BitsPerComponent 16"));
}

#[test]
fn parameters_are_found_wherever_they_are() {
    assert!(!reads(&object_stream(FAILING)));
    for filter in ["/Fl", "/LZW", "[/ASCIIHexDecode /FlateDecode]", "9 0 R"] {
        let with = |parameters: &str| {
            reads(&object_stream(&format!("/Filter {filter} {parameters}")))
        };
        assert!(!with("/DP << /Predictor 2 /Columns 0 >>"));
        assert!(!with("/DecodeParms [null << /Predictor 2 /Columns 0 >>]"));
        assert!(!with("/DecodeParms [null 5 0 R]"));
        assert!(!with("/DecodeParms 5 0 R"));
        assert!(with("/DecodeParms [null << /Predictor 2 /Columns 5 /A 5 0 R >>]"));
        assert!(with("/DecodeParms [null << /A << /Predictor 2 /Columns 0 >> >>]"));
    }
    assert!(reads(&object_stream("/Filter /CCITTFaxDecode /DecodeParms 5 0 R")));
    assert!(reads(&object_stream("/DecodeParms << /Predictor 2 /Columns 0 >>")));
}

#[test]
fn other_streams_do_not_matter() {
    assert!(reads(&plain_stream("5", FAILING)));
    assert!(reads(&plain_stream("5", "/Filter /FlateDecode /DecodeParms 5 0 R")));
    assert!(reads("<< /Type /ObjStm /Filter /LZWDecode /DP << /Predictor 2 /Columns 0 >> >>"));
    assert!(reads("<< /Type /Outlines /First 5 0 R /N 3 /Predictor 2 /Columns 0 >>"));
    let many = plain_stream("5", "/Length 6 0 R").repeat(100);
    assert!(reads(&format!("{}{many}", table("[1 1 1]"))));
}

#[test]
fn tables_tell_which_streams_hold_objects() {
    let with_table = |stream: String| reads(&format!("{}{stream}", table("[1 1 1]")));
    assert!(!with_table(plain_stream("7", FAILING)));
    assert!(!with_table(plain_stream("17", FAILING)));
    assert!(with_table(plain_stream("8", FAILING)));
    assert!(with_table(plain_stream("71", FAILING)));
    assert!(!with_table(plain_stream("x8", FAILING)));
    assert!(with_table(plain_stream("7", "/Filter /FlateDecode")));
    let with_odd_table = |stream: String| reads(&format!("{}{stream}", table("[+1 1 1]")));
    assert!(!with_odd_table(plain_stream("8", FAILING)));
    let without_kinds = |stream: String| reads(&format!("{}{stream}", table("[0 1 1]")));
    assert!(without_kinds(plain_stream("7", FAILING)));
}

#[test]
fn streams_without_a_number_can_be_any() {
    let stray = "\n<< /Type /ObjStm >>\nstream\n\nendstream\n";
    assert!(reads(stray));
    assert!(!reads(&format!("{stray}{}", plain_stream("8", FAILING))));
    let numbered = object_stream("");
    assert!(reads(&format!("{numbered}{}", plain_stream("8", FAILING))));
    assert!(!reads(&format!("{numbered}{}", plain_stream("5", FAILING))));
}

#[test]
fn few_streams_of_objects_can_refer_elsewhere() {
    for entry in ["/Length 6 0 R", "/N 6 0 R", "/First 6 0 R", "/Filter [6 0 R]", "/F 6 0 R"] {
        let stream = object_stream(entry);
        assert!(reads(&stream.repeat(8)));
        assert!(!reads(&stream.repeat(9)));
    }
    assert!(reads(&object_stream("/Length 6 /Extends 6 0 R").repeat(9)));
}

#[test]
fn files_with_empty_rows_are_not_opened() {
    let file = "1 0 obj\n<< /Size 1 /W [1 1 1] /Filter /LZWDecode /DecodeParms \
                << /Predictor 2 /Columns 0 >> /Length 0 >>\nstream\n\nendstream\nendobj\n\
                startxref\n0\n%%EOF";
    let error = Renderer::new(file.as_bytes().to_vec()).err().expect("the file is refused");
    assert_eq!(error, LoadError::Stopped);
    assert_eq!(error.message(), "PDF renderer stopped while opening the document");
}

#[test]
fn documents_remember_their_files() {
    let plain = test_pdf(&[(100, 200, "1 0 0")]);
    let document = Pdf::new(plain.clone()).ok().expect("PDF should load");
    assert!(is_readable_document(&document));
    assert!(try_extract_page_content(&document, 0, TextDevice::new(), to_page).is_some());
    let mut linked = object_stream("/Length 99 0 R").repeat(9).into_bytes();
    let mut file = plain;
    let end = file.len() - "%%EOF\n".len();
    file.truncate(end);
    file.push(b'%');
    linked.retain(|byte| *byte != b'\n');
    file.extend(linked);
    let document = Pdf::new(file).ok().expect("PDF should load");
    assert!(!is_readable_document(&document));
    assert!(try_extract_page_content(&document, 0, TextDevice::new(), to_page).is_none());
}

#[test]
fn compressed_objects_are_read() {
    let objects = "2 0 << /Type /Pages /Count 1 /Kids [3 0 R] >>";
    let file = format!(
        "%PDF-1.7\n1 0 obj\n<< /Type /Catalog /Pages 2 0 R >>\nendobj\n\
         5 0 obj\n<< /Type /ObjStm /N 1 /First 4 /Length {} >>\nstream\n{objects}\nendstream\nendobj\n\
         3 0 obj\n<< /Type /Page /MediaBox [0 0 30 40] >>\nendobj\n\
         trailer\n<< /Size 6 /Root 1 0 R >>\n%%EOF",
        objects.len()
    );
    let (renderer, document) = Renderer::new(file.into_bytes()).ok().expect("PDF should load");
    assert_eq!(renderer.sizes.len(), 1);
    assert_eq!(f32::from_bits(renderer.sizes[0].width.bits), 30.);
    assert!(is_readable_document(&document));
}
