use hayro::hayro_syntax::Pdf;
use viewer_core::interaction::{
    extract_page_content, GlyphText, PageContent, PageRect, TextDevice, TextGlyph,
};
use viewer_core::links::{
    action_url, find_name, is_visible_link, link_target, page_of_object, same_bytes,
    DestinationEntry, LinkAction, LinkDestination, LinkTarget, NameEntries, NameLookup, NameSearch,
    MAX_NAME_NODES,
};
use viewer_core::number::{Double, Single};
use viewer_core::pdf::{DeviceRect, ObjectId};
use viewer_core::renderer::load_document;
use viewer_core::sample::test_pdf_with_attributes;

fn narrow(x: Double) -> Single {
    Single {
        bits: (f64::from_bits(x.bits) as f32).to_bits(),
    }
}

fn to_page(rect: DeviceRect) -> PageRect {
    PageRect {
        x0: narrow(rect.x0),
        y0: narrow(rect.y0),
        x1: narrow(rect.x1),
        y1: narrow(rect.y1),
    }
}

fn device_rect(x0: f64, y0: f64, x1: f64, y1: f64) -> DeviceRect {
    DeviceRect {
        x0: Double { bits: x0.to_bits() },
        y0: Double { bits: y0.to_bits() },
        x1: Double { bits: x1.to_bits() },
        y1: Double { bits: y1.to_bits() },
    }
}

fn edges(rect: PageRect) -> (f32, f32, f32, f32) {
    (
        f32::from_bits(rect.x0.bits),
        f32::from_bits(rect.y0.bits),
        f32::from_bits(rect.x1.bits),
        f32::from_bits(rect.y1.bits),
    )
}

fn texts(device: &TextDevice) -> Vec<&str> {
    device.glyphs.iter().map(|glyph| glyph.text.as_str()).collect()
}

fn describe(content: &PageContent) -> Vec<String> {
    content
        .links
        .iter()
        .map(|link| match &link.destination {
            LinkDestination::Url(url) => url.clone(),
            LinkDestination::Page(page) => format!("page {page}"),
        })
        .collect()
}

fn open(content: Vec<u8>) -> Pdf {
    load_document(content).ok().expect("PDF should load").0
}

fn links_of(page: usize, annotations: &str) -> PageContent {
    let attributes = format!("/Annots [{annotations}]");
    let document = open(test_pdf_with_attributes(
        &[(100, 200, "1 0 0"), (100, 200, "0 1 0")],
        &attributes,
        false,
    ));
    extract_page_content(&document, page, TextDevice::new(), to_page)
}

fn file_of(objects: &[&str]) -> Vec<u8> {
    let mut file = "%PDF-1.7\n".to_owned();
    let mut offsets = Vec::new();
    for (index, object) in objects.iter().enumerate() {
        offsets.push(file.len());
        file.push_str(&format!("{} 0 obj\n{object}\nendobj\n", index + 1));
    }
    let table = file.len();
    file.push_str(&format!("xref\n0 {}\n0000000000 65535 f \n", objects.len() + 1));
    for offset in offsets {
        file.push_str(&format!("{offset:010} 00000 n \n"));
    }
    file.push_str(&format!(
        "trailer\n<< /Size {} /Root 1 0 R >>\nstartxref\n{table}\n%%EOF\n",
        objects.len() + 1
    ));
    file.into_bytes()
}

fn named_links(catalog: &str, destination: &str, extra: &[&str]) -> Vec<String> {
    let catalog = format!("<< /Type /Catalog /Pages 2 0 R {catalog} >>");
    let first = format!(
        "<< /Type /Page /Parent 2 0 R /MediaBox [0 0 100 100] /Annots \
         [<< /Subtype /Link /Rect [0 0 10 10] /Dest {destination} >>] >>"
    );
    let mut objects = vec![
        catalog.as_str(),
        "<< /Type /Pages /Count 2 /Kids [3 0 R 4 0 R] >>",
        first.as_str(),
        "<< /Type /Page /Parent 2 0 R /MediaBox [0 0 100 100] >>",
    ];
    objects.extend(extra);
    describe(&extract_page_content(&open(file_of(&objects)), 0, TextDevice::new(), to_page))
}

#[test]
fn repeated_glyphs_are_drawn_once() {
    let mut device = TextDevice::new();
    let place = device_rect(1., 2., 3., 4.);
    device.draw_glyph(Some(GlyphText::Char('a')), place, to_page);
    device.draw_glyph(Some(GlyphText::Text("a".to_owned())), place, to_page);
    assert_eq!(texts(&device), vec!["a"]);
    device.draw_glyph(Some(GlyphText::Text("fi".to_owned())), place, to_page);
    device.draw_glyph(Some(GlyphText::Char('a')), place, to_page);
    assert_eq!(texts(&device), vec!["a", "fi", "a"]);
    device.draw_glyph(Some(GlyphText::Char('a')), device_rect(1., 2., 3., 5.), to_page);
    device.draw_glyph(Some(GlyphText::Char('a')), device_rect(1., 2., 3., 5.), to_page);
    assert_eq!(texts(&device), vec!["a", "fi", "a", "a"]);
    assert_eq!(edges(device.glyphs[3].bounds), (1., 2., 3., 5.));
}

#[test]
fn zeros_of_both_signs_are_the_same_place() {
    let mut device = TextDevice::new();
    device.draw_glyph(Some(GlyphText::Char('a')), device_rect(0., 0., 1., 1.), to_page);
    device.draw_glyph(Some(GlyphText::Char('a')), device_rect(-0., 0., 1., 1.), to_page);
    assert_eq!(device.glyphs.len(), 1);
}

#[test]
fn glyphs_without_text_or_place_leave_no_trace() {
    let mut device = TextDevice::new();
    device.draw_glyph(None, device_rect(1., 2., 3., 4.), to_page);
    for bad in [f64::NAN, f64::INFINITY, f64::NEG_INFINITY] {
        device.draw_glyph(Some(GlyphText::Char('a')), device_rect(bad, 2., 3., 4.), to_page);
        device.draw_glyph(Some(GlyphText::Char('a')), device_rect(1., bad, 3., 4.), to_page);
        device.draw_glyph(Some(GlyphText::Char('a')), device_rect(1., 2., bad, 4.), to_page);
        device.draw_glyph(Some(GlyphText::Char('a')), device_rect(1., 2., 3., bad), to_page);
    }
    assert!(device.glyphs.is_empty());
    device.draw_glyph(Some(GlyphText::Char('é')), device_rect(1e300, 2., 3., 4.), to_page);
    assert_eq!(texts(&device), vec!["é"]);
}

#[test]
fn glyphs_are_added_in_order() {
    let mut device = TextDevice::new();
    for text in ["one", "two", "two", "three"] {
        device.add(TextGlyph {
            text: text.to_owned(),
            bounds: to_page(device_rect(0., 0., 1., 1.)),
        });
    }
    assert_eq!(texts(&device), vec!["one", "two", "three"]);
}

#[test]
fn bytes_are_compared() {
    assert!(same_bytes(b"abc", b"abc"));
    assert!(!same_bytes(b"abc", b"abd"));
    assert!(!same_bytes(b"abc", b"ab"));
    assert!(same_bytes(b"", b""));
}

#[test]
fn hidden_links_are_not_shown() {
    let link = Some(b"Link".to_vec());
    assert!(is_visible_link(&link, None));
    assert!(is_visible_link(&link, Some(4)));
    assert!(!is_visible_link(&link, Some(2)));
    assert!(!is_visible_link(&link, Some(32 + 4)));
    assert!(!is_visible_link(&Some(b"Text".to_vec()), None));
    assert!(!is_visible_link(&None, None));
}

#[test]
fn only_addresses_are_opened() {
    let uri = Some("https://example.com/ä".as_bytes().to_vec());
    assert_eq!(
        action_url(&Some(b"URI".to_vec()), &uri),
        Some("https://example.com/ä".to_owned())
    );
    assert_eq!(action_url(&Some(b"GoTo".to_vec()), &uri), None);
    assert_eq!(action_url(&None, &uri), None);
    assert_eq!(action_url(&Some(b"URI".to_vec()), &None), None);
    assert_eq!(
        action_url(&Some(b"URI".to_vec()), &Some(b"a\xffb".to_vec())),
        Some("a\u{fffd}b".to_owned())
    );
}

fn entry(array: Option<u8>, name: Option<&str>, string: Option<&str>) -> DestinationEntry<u8> {
    DestinationEntry {
        array,
        name: name.map(|name| name.as_bytes().to_vec()),
        string: string.map(|string| string.as_bytes().to_vec()),
    }
}

fn chosen(destination: DestinationEntry<u8>, link: DestinationEntry<u8>) -> String {
    let action = LinkAction {
        action_type: None,
        uri: None,
        destination,
    };
    match link_target(Some(action), link) {
        Some(LinkTarget::Array(array)) => format!("array {array}"),
        Some(LinkTarget::Named(name)) => format!("name {}", String::from_utf8_lossy(&name)),
        Some(LinkTarget::Url(url)) => url,
        None => "nothing".to_owned(),
    }
}

#[test]
fn destinations_have_an_order() {
    let none = || entry(None, None, None);
    assert_eq!(chosen(entry(Some(1), None, None), entry(Some(2), None, None)), "array 1");
    assert_eq!(chosen(entry(None, Some("a"), None), entry(Some(2), None, None)), "array 2");
    assert_eq!(chosen(entry(None, None, Some("s")), entry(None, Some("b"), None)), "name b");
    assert_eq!(chosen(entry(None, Some("a"), None), entry(None, Some("b"), None)), "name a");
    assert_eq!(chosen(entry(None, None, Some("s")), entry(None, None, Some("t"))), "name s");
    assert_eq!(chosen(none(), entry(None, None, Some("t"))), "name t");
    assert_eq!(chosen(none(), none()), "nothing");
}

#[test]
fn addresses_go_before_destinations() {
    let action = |action_type: &str, uri: Option<&str>| {
        Some(LinkAction {
            action_type: Some(action_type.as_bytes().to_vec()),
            uri: uri.map(|uri| uri.as_bytes().to_vec()),
            destination: entry(Some(1), None, None),
        })
    };
    let link = || entry(Some(2), None, None);
    assert!(matches!(
        link_target(action("URI", Some("x:y")), link()),
        Some(LinkTarget::Url(url)) if url == "x:y"
    ));
    assert!(matches!(
        link_target(action("URI", None), link()),
        Some(LinkTarget::Array(1))
    ));
    assert!(matches!(
        link_target(action("GoTo", Some("x:y")), link()),
        Some(LinkTarget::Array(1))
    ));
    assert!(matches!(
        link_target(None, link()),
        Some(LinkTarget::Array(2))
    ));
    assert!(link_target(None, entry(None, None, None)).is_none());
}

#[test]
fn first_page_with_an_object_counts() {
    let id = |number| ObjectId {
        number,
        generation: 0,
    };
    let ids = vec![None, Some(id(3)), Some(id(5)), Some(id(3))];
    assert_eq!(page_of_object(&ids, id(3)), Some(1));
    assert_eq!(page_of_object(&ids, id(5)), Some(2));
    assert_eq!(page_of_object(&ids, id(4)), None);
    assert_eq!(
        page_of_object(&ids, ObjectId { number: 3, generation: 1 }),
        None
    );
}

#[test]
fn names_are_looked_up() {
    let names = |broken| NameEntries {
        entries: vec![(b"a".to_vec(), 1), (b"b".to_vec(), 2), (b"a".to_vec(), 3)],
        broken,
    };
    assert!(matches!(find_name(names(false), b"a"), NameLookup::Found(1)));
    assert!(matches!(find_name(names(true), b"b"), NameLookup::Found(2)));
    assert!(matches!(find_name(names(true), b"c"), NameLookup::Broken));
    assert!(matches!(find_name(names(false), b"c"), NameLookup::Absent));
}

#[test]
fn last_child_is_visited_first() {
    let mut search = NameSearch::new(0);
    assert_eq!(search.next_node(), Some(0));
    search.add_children(vec![1, 2]);
    assert_eq!(search.next_node(), Some(2));
    search.add_children(vec![3]);
    assert_eq!(search.next_node(), Some(3));
    assert_eq!(search.next_node(), Some(1));
    assert_eq!(search.next_node(), None);
}

#[test]
fn endless_trees_are_given_up() {
    let mut search = NameSearch::new(0);
    let mut visited = 0;
    while search.next_node().is_some() {
        visited += 1;
        search.add_children(vec![0, 0]);
    }
    assert_eq!(visited, MAX_NAME_NODES);
}

#[test]
fn links_are_extracted() {
    let content = links_of(
        0,
        "<< /Subtype /Link /Rect [10 20 30 50] /A << /S /URI /URI (https://example.com) >> >> \
         << /Subtype /Link /Rect [0 0 1 1] /Dest [5 0 R /Fit] >> \
         << /Subtype /Link /Rect [0 0 1 1] /A << /S /GoTo /D [5 0 R /Fit] >> >>",
    );
    assert_eq!(describe(&content), vec!["https://example.com", "page 1", "page 1"]);
    let back = links_of(1, "<< /Subtype /Link /Rect [0 0 1 1] /Dest [3 0 R /Fit] >>");
    assert_eq!(describe(&back), vec!["page 0"]);
    assert_eq!(edges(content.links[0].bounds), (10., 150., 30., 180.));
}

#[test]
fn annotations_that_lead_nowhere_are_left_out() {
    let content = links_of(
        0,
        "<< /Subtype /Text /Rect [0 0 1 1] /Dest [5 0 R] >> \
         << /Subtype /Link /F 2 /Rect [0 0 1 1] /Dest [5 0 R] >> \
         << /Subtype /Link /Dest [5 0 R] >> \
         << /Subtype /Link /Rect [0 0 1 1] >> \
         << /Subtype /Link /Rect [0 0 1 1] /Dest [2 0 R] >> \
         << /Subtype /Link /Rect [0 0 1 1] /Dest /Unknown >> \
         << /Subtype /Link /Rect [0 0 1 1] /Dest [5 0 R] >>",
    );
    assert_eq!(describe(&content), vec!["page 1"]);
}

#[test]
fn named_destinations_are_found() {
    let names = "/Names << /Dests 5 0 R >>";
    assert_eq!(
        named_links("/Dests << /Here [4 0 R /Fit] >>", "/Here", &[]),
        vec!["page 1"]
    );
    assert_eq!(
        named_links("/Dests << /Here << /D [4 0 R /Fit] >> >>", "/Here", &[]),
        vec!["page 1"]
    );
    assert_eq!(
        named_links(names, "(here)", &["<< /Names [(there) [3 0 R] (here) [4 0 R]] >>"]),
        vec!["page 1"]
    );
    assert_eq!(
        named_links(names, "(here)", &["<< /Names [(here) << /D [4 0 R] >>] >>"]),
        vec!["page 1"]
    );
    assert_eq!(
        named_links(
            names,
            "(here)",
            &[
                "<< /Kids [6 0 R 7 0 R] >>",
                "<< /Names [(here) [4 0 R]] >>",
                "<< /Names [(there) [3 0 R]] >>"
            ]
        ),
        vec!["page 1"]
    );
}

#[test]
fn broken_name_trees_give_nothing() {
    let names = "/Names << /Dests 5 0 R >>";
    assert!(named_links(names, "(here)", &["<< /Names [(here) 7] >>"]).is_empty());
    assert!(named_links(names, "(here)", &["<< /Names [(other)] >>"]).is_empty());
    assert!(named_links(names, "(here)", &["<< /Kids [5 0 R] >>"]).is_empty());
    assert!(named_links("", "(here)", &[]).is_empty());
    assert!(named_links("/Names << >>", "(here)", &[]).is_empty());
}

#[test]
fn missing_pages_are_empty() {
    let document = open(test_pdf_with_attributes(&[(100, 200, "1 0 0")], "", false));
    let mut device = TextDevice::new();
    device.draw_glyph(Some(GlyphText::Char('a')), device_rect(1., 2., 3., 4.), to_page);
    let content = extract_page_content(&document, 1, device, to_page);
    assert!(content.glyphs.is_empty() && content.links.is_empty());
}

#[test]
fn drawn_text_is_handed_over() {
    let document = open(test_pdf_with_attributes(&[(100, 200, "1 0 0")], "", false));
    let mut device = TextDevice::new();
    device.draw_glyph(Some(GlyphText::Char('a')), device_rect(1., 2., 3., 4.), to_page);
    let content = extract_page_content(&document, 0, device, to_page);
    assert_eq!(content.glyphs.len(), 1);
    assert_eq!(content.glyphs[0].text, "a");
}
