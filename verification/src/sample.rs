//! Small PDF files, written from scratch.
//!
//! Every page is a rectangle of one colour, and may carry a line of text in a standard font.

use vstd::prelude::*;
use vstd::string::*;
use vstd::utf8::*;

verus! {

/// A page: its width, its height and the operands that set its colour.
pub type Page<'a> = (u32, u32, &'a str);

/// A number in decimal notation, in ASCII.
pub open spec fn decimal_bytes(n: nat) -> Seq<u8>
    decreases n,
{
    if n < 10 {
        seq![(48 + n) as u8]
    } else {
        decimal_bytes(n / 10).push((48 + n % 10) as u8)
    }
}

/// A number in decimal notation, with zeros in front where it has less than `width` digits.
pub open spec fn padded_bytes(n: nat, width: nat) -> Seq<u8> {
    let digits = decimal_bytes(n);
    let zeros = if digits.len() < width {
        (width - digits.len()) as nat
    } else {
        0
    };
    Seq::new(zeros, |i: int| 48u8) + digits
}

/// The references of the page tree to its first `n` pages.
pub open spec fn kids(n: nat) -> Seq<u8>
    decreases n,
{
    if n == 0 {
        Seq::empty()
    } else {
        kids((n - 1) as nat) + (if n == 1 {
            Seq::empty()
        } else {
            " ".spec_bytes()
        }) + decimal_bytes((1 + 2 * n) as nat) + " 0 R".spec_bytes()
    }
}

/// The object that lists the pages.
pub open spec fn page_tree(n: nat) -> Seq<u8> {
    "<< /Type /Pages /Count ".spec_bytes() + decimal_bytes(n) + " /Kids [".spec_bytes() + kids(n)
        + "] >>".spec_bytes()
}

/// The object that describes the page with the given index.
pub open spec fn page_object(page: Page<'_>, index: nat, attributes: Seq<u8>) -> Seq<u8> {
    "<< /Type /Page /Parent 2 0 R /MediaBox [0 0 ".spec_bytes() + decimal_bytes(page.0 as nat)
        + " ".spec_bytes() + decimal_bytes(page.1 as nat) + "] ".spec_bytes() + attributes
        + " /Resources << /Font << /F1 << /Type /Font /Subtype /Type1 /BaseFont /Helvetica >> >> >> /Contents ".spec_bytes()
        + decimal_bytes((4 + 2 * index) as nat) + " 0 R >>".spec_bytes()
}

/// The drawing instructions of a page.
pub open spec fn page_content(page: Page<'_>, text: bool) -> Seq<u8> {
    page.2.spec_bytes() + " rg 0 0 ".spec_bytes() + decimal_bytes(page.0 as nat)
        + " ".spec_bytes() + decimal_bytes(page.1 as nat) + " re f".spec_bytes() + (if text {
        " 0 0 0 rg BT /F1 20 Tf 10 30 Td (Native PDF preview) Tj ET".spec_bytes()
    } else {
        Seq::empty()
    })
}

/// The object that holds the drawing instructions of a page.
pub open spec fn content_object(page: Page<'_>, text: bool) -> Seq<u8> {
    let content = page_content(page, text);
    "<< /Length ".spec_bytes() + decimal_bytes(content.len()) + " >>\nstream\n".spec_bytes()
        + content + "\nendstream".spec_bytes()
}

/// The objects of the file: the catalog, the page tree, and two for each page.
pub open spec fn file_objects(pages: Seq<Page<'_>>, attributes: Seq<u8>, text: bool) -> Seq<
    Seq<u8>,
> {
    Seq::new(
        2 + 2 * pages.len(),
        |k: int|
            if k == 0 {
                "<< /Type /Catalog /Pages 2 0 R >>".spec_bytes()
            } else if k == 1 {
                page_tree(pages.len())
            } else if k % 2 == 0 {
                page_object(pages[(k - 2) / 2], ((k - 2) / 2) as nat, attributes)
            } else {
                content_object(pages[(k - 2) / 2], text)
            },
    )
}

/// What announces the object with the given number.
pub open spec fn object_header(number: nat) -> Seq<u8> {
    decimal_bytes(number) + " 0 obj\n".spec_bytes()
}

/// The header of the file and its first `k` objects.
pub open spec fn file_body(objects: Seq<Seq<u8>>, k: nat) -> Seq<u8>
    decreases k,
{
    if k == 0 {
        "%PDF-1.7\n".spec_bytes()
    } else {
        file_body(objects, (k - 1) as nat) + object_header(k) + objects[k - 1]
            + "\nendobj\n".spec_bytes()
    }
}

/// The lines of the cross-reference table that locate the first `k` objects.
pub open spec fn table_lines(objects: Seq<Seq<u8>>, k: nat) -> Seq<u8>
    decreases k,
{
    if k == 0 {
        Seq::empty()
    } else {
        table_lines(objects, (k - 1) as nat) + padded_bytes(
            file_body(objects, (k - 1) as nat).len(),
            10,
        ) + " 00000 n \n".spec_bytes()
    }
}

/// The cross-reference table and the trailer.
pub open spec fn file_tail(objects: Seq<Seq<u8>>) -> Seq<u8> {
    let n = objects.len();
    "xref\n0 ".spec_bytes() + decimal_bytes(n + 1) + "\n0000000000 65535 f \n".spec_bytes()
        + table_lines(objects, n) + "trailer\n<< /Size ".spec_bytes() + decimal_bytes(n + 1)
        + " /Root 1 0 R >>\nstartxref\n".spec_bytes() + decimal_bytes(file_body(objects, n).len())
        + "\n%%EOF\n".spec_bytes()
}

/// The whole file.
pub open spec fn file_bytes(pages: Seq<Page<'_>>, attributes: Seq<u8>, text: bool) -> Seq<u8> {
    let objects = file_objects(pages, attributes, text);
    file_body(objects, objects.len()) + file_tail(objects)
}

/// Appends a text.
fn push_text(out: &mut Vec<u8>, text: &str)
    ensures
        final(out)@ == old(out)@ + text.spec_bytes(),
{
    let ghost before = out@;
    out.extend_from_slice(text.as_bytes());
    proof {
        assert(out@ =~= before + text.spec_bytes());
    }
}

/// Appends a number in decimal notation.
fn push_number(out: &mut Vec<u8>, n: u64)
    ensures
        final(out)@ == old(out)@ + decimal_bytes(n as nat),
    decreases n,
{
    let ghost before = out@;
    if n >= 10 {
        push_number(out, n / 10);
        proof {
            assert(before + decimal_bytes(n as nat) =~= (before + decimal_bytes(
                (n / 10) as nat,
            )).push((48 + n % 10) as u8));
        }
    } else {
        proof {
            assert(before + decimal_bytes(n as nat) =~= before.push((48 + n % 10) as u8));
        }
    }
    out.push((48 + n % 10) as u8);
}

/// Appends a number in decimal notation, with zeros in front where it has less than ten digits.
fn push_padded(out: &mut Vec<u8>, n: u64)
    ensures
        final(out)@ == old(out)@ + padded_bytes(n as nat, 10),
{
    let ghost before = out@;
    let mut digits: Vec<u8> = Vec::new();
    push_number(&mut digits, n);
    proof {
        assert(digits@ =~= decimal_bytes(n as nat));
    }
    let mut width: usize = digits.len();
    while width < 10
        invariant
            digits@.len() <= width,
            width <= 10 || width == digits@.len(),
            out@ == before + Seq::new((width - digits@.len()) as nat, |i: int| 48u8),
        decreases 10 - width,
    {
        let ghost filled = out@;
        out.push(48);
        width += 1;
        proof {
            assert(out@ =~= before + Seq::new((width - digits@.len()) as nat, |i: int| 48u8));
        }
    }
    let ghost filled = out@;
    out.append(&mut digits);
    proof {
        assert(out@ =~= before + padded_bytes(n as nat, 10));
    }
}

/// The object that lists the pages.
fn write_page_tree(count: usize) -> (out: Vec<u8>)
    requires
        2 * count + 4 <= usize::MAX,
    ensures
        out@ == page_tree(count as nat),
{
    let mut out: Vec<u8> = Vec::new();
    push_text(&mut out, "<< /Type /Pages /Count ");
    push_number(&mut out, count as u64);
    push_text(&mut out, " /Kids [");
    let ghost head = out@;
    let mut index: usize = 0;
    proof {
        assert(head =~= head + kids(0));
    }
    while index < count
        invariant
            index <= count,
            2 * count + 4 <= usize::MAX,
            out@ == head + kids(index as nat),
        decreases count - index,
    {
        let ghost before = out@;
        if index > 0 {
            push_text(&mut out, " ");
        }
        push_number(&mut out, (3 + 2 * index) as u64);
        push_text(&mut out, " 0 R");
        index += 1;
        proof {
            assert(out@ =~= head + kids(index as nat));
        }
    }
    push_text(&mut out, "] >>");
    proof {
        assert(out@ =~= page_tree(count as nat));
    }
    out
}

/// The object that describes a page.
fn write_page(page: &Page<'_>, index: usize, attributes: &str) -> (out: Vec<u8>)
    requires
        2 * index + 4 <= usize::MAX,
    ensures
        out@ == page_object(*page, index as nat, attributes.spec_bytes()),
{
    let mut out: Vec<u8> = Vec::new();
    push_text(&mut out, "<< /Type /Page /Parent 2 0 R /MediaBox [0 0 ");
    push_number(&mut out, page.0 as u64);
    push_text(&mut out, " ");
    push_number(&mut out, page.1 as u64);
    push_text(&mut out, "] ");
    push_text(&mut out, attributes);
    push_text(
        &mut out,
        " /Resources << /Font << /F1 << /Type /Font /Subtype /Type1 /BaseFont /Helvetica >> >> >> /Contents ",
    );
    push_number(&mut out, (4 + 2 * index) as u64);
    push_text(&mut out, " 0 R >>");
    proof {
        assert(out@ =~= page_object(*page, index as nat, attributes.spec_bytes()));
    }
    out
}

/// The object that holds the drawing instructions of a page.
fn write_content(page: &Page<'_>, text: bool) -> (out: Vec<u8>)
    ensures
        out@ == content_object(*page, text),
{
    let mut content: Vec<u8> = Vec::new();
    push_text(&mut content, page.2);
    push_text(&mut content, " rg 0 0 ");
    push_number(&mut content, page.0 as u64);
    push_text(&mut content, " ");
    push_number(&mut content, page.1 as u64);
    push_text(&mut content, " re f");
    if text {
        push_text(&mut content, " 0 0 0 rg BT /F1 20 Tf 10 30 Td (Native PDF preview) Tj ET");
    }
    proof {
        assert(content@ =~= page_content(*page, text));
    }
    let mut out: Vec<u8> = Vec::new();
    push_text(&mut out, "<< /Length ");
    push_number(&mut out, content.len() as u64);
    push_text(&mut out, " >>\nstream\n");
    out.append(&mut content);
    push_text(&mut out, "\nendstream");
    proof {
        assert(out@ =~= content_object(*page, text));
    }
    out
}

/// The contents of the objects.
spec fn contents(objects: Seq<Vec<u8>>) -> Seq<Seq<u8>> {
    objects.map_values(|object: Vec<u8>| object@)
}

/// The objects of the file.
fn write_objects(pages: &[Page<'_>], attributes: &str, text: bool) -> (objects: Vec<Vec<u8>>)
    requires
        2 * pages@.len() + 4 <= usize::MAX,
    ensures
        contents(objects@) == file_objects(pages@, attributes.spec_bytes(), text),
        objects@.len() == 2 + 2 * pages@.len(),
{
    let ghost expected = file_objects(pages@, attributes.spec_bytes(), text);
    let mut objects: Vec<Vec<u8>> = Vec::new();
    let mut catalog: Vec<u8> = Vec::new();
    push_text(&mut catalog, "<< /Type /Catalog /Pages 2 0 R >>");
    proof {
        assert(catalog@ =~= expected[0]);
    }
    objects.push(catalog);
    objects.push(write_page_tree(pages.len()));
    let mut index: usize = 0;
    while index < pages.len()
        invariant
            index <= pages@.len(),
            2 * pages@.len() + 4 <= usize::MAX,
            expected == file_objects(pages@, attributes.spec_bytes(), text),
            objects@.len() == 2 + 2 * index,
            forall|k: int| 0 <= k < objects@.len() ==> (#[trigger] objects@[k])@ == expected[k],
        decreases pages@.len() - index,
    {
        let page: &Page<'_> = &pages[index];
        objects.push(write_page(page, index, attributes));
        objects.push(write_content(page, text));
        index += 1;
    }
    proof {
        assert(contents(objects@) =~= expected);
    }
    objects
}

/// Writes the header of the file and the objects, and gives the offset of each object.
fn write_body(objects: &Vec<Vec<u8>>) -> (r: (Vec<u8>, Vec<usize>))
    requires
        objects@.len() + 2 <= usize::MAX,
    ensures
        r.0@ == file_body(contents(objects@), objects@.len()),
        r.1@.len() == objects@.len(),
        forall|k: int|
            0 <= k < objects@.len() ==> #[trigger] r.1@[k] == file_body(
                contents(objects@),
                k as nat,
            ).len(),
{
    let ghost expected = contents(objects@);
    let mut pdf: Vec<u8> = Vec::new();
    push_text(&mut pdf, "%PDF-1.7\n");
    proof {
        assert(pdf@ =~= file_body(expected, 0));
    }
    let mut offsets: Vec<usize> = Vec::new();
    let mut index: usize = 0;
    while index < objects.len()
        invariant
            index <= objects@.len(),
            objects@.len() + 2 <= usize::MAX,
            expected == contents(objects@),
            pdf@ == file_body(expected, index as nat),
            offsets@.len() == index,
            forall|k: int|
                0 <= k < index ==> #[trigger] offsets@[k] == file_body(expected, k as nat).len(),
        decreases objects@.len() - index,
    {
        offsets.push(pdf.len());
        push_number(&mut pdf, (index + 1) as u64);
        push_text(&mut pdf, " 0 obj\n");
        let object: &Vec<u8> = &objects[index];
        let ghost before = pdf@;
        pdf.extend_from_slice(object.as_slice());
        proof {
            assert(pdf@ =~= before + expected[index as int]);
        }
        push_text(&mut pdf, "\nendobj\n");
        index += 1;
        proof {
            assert(pdf@ =~= file_body(expected, index as nat));
        }
    }
    (pdf, offsets)
}

/// Appends the cross-reference table and the trailer.
fn write_tail(pdf: &mut Vec<u8>, offsets: &Vec<usize>, objects: Ghost<Seq<Seq<u8>>>)
    requires
        offsets@.len() + 2 <= usize::MAX,
        offsets@.len() == objects@.len(),
        old(pdf)@ == file_body(objects@, objects@.len()),
        forall|k: int|
            0 <= k < objects@.len() ==> #[trigger] offsets@[k] == file_body(
                objects@,
                k as nat,
            ).len(),
    ensures
        final(pdf)@ == old(pdf)@ + file_tail(objects@),
{
    let ghost body = pdf@;
    let count: usize = offsets.len();
    let table: usize = pdf.len();
    push_text(pdf, "xref\n0 ");
    push_number(pdf, (count + 1) as u64);
    push_text(pdf, "\n0000000000 65535 f \n");
    let ghost head = pdf@;
    proof {
        assert(head =~= head + table_lines(objects@, 0));
    }
    let mut line: usize = 0;
    while line < count
        invariant
            line <= count,
            offsets@.len() == count,
            offsets@.len() == objects@.len(),
            forall|k: int|
                0 <= k < objects@.len() ==> #[trigger] offsets@[k] == file_body(
                    objects@,
                    k as nat,
                ).len(),
            pdf@ == head + table_lines(objects@, line as nat),
        decreases count - line,
    {
        push_padded(pdf, offsets[line] as u64);
        push_text(pdf, " 00000 n \n");
        line += 1;
        proof {
            assert(pdf@ =~= head + table_lines(objects@, line as nat));
        }
    }
    push_text(pdf, "trailer\n<< /Size ");
    push_number(pdf, (count + 1) as u64);
    push_text(pdf, " /Root 1 0 R >>\nstartxref\n");
    push_number(pdf, table as u64);
    push_text(pdf, "\n%%EOF\n");
    proof {
        assert(pdf@ =~= body + file_tail(objects@));
    }
}

/// Builds a PDF file. Each page has the given size and is filled with the colour that its operands
/// set; `attributes` is added to every page, and with `text` every page carries a line of text.
pub fn test_pdf_with_attributes(pages: &[Page<'_>], attributes: &str, text: bool) -> (pdf: Vec<u8>)
    requires
        2 * pages@.len() + 4 <= usize::MAX,
    ensures
        pdf@ == file_bytes(pages@, attributes.spec_bytes(), text),
{
    let objects: Vec<Vec<u8>> = write_objects(pages, attributes, text);
    let (mut pdf, offsets) = write_body(&objects);
    write_tail(&mut pdf, &offsets, Ghost(contents(objects@)));
    pdf
}

/// Builds a PDF file of plain coloured pages.
pub fn test_pdf(pages: &[Page<'_>]) -> (pdf: Vec<u8>)
    requires
        2 * pages@.len() + 4 <= usize::MAX,
    ensures
        pdf@ == file_bytes(pages@, Seq::empty(), false),
{
    proof {
        reveal_strlit("");
        assert(""@ =~= Seq::<char>::empty());
        assert("".spec_bytes() =~= Seq::<u8>::empty());
    }
    test_pdf_with_attributes(pages, "", false)
}

proof fn lemma_body_prefix(objects: Seq<Seq<u8>>, k: nat, n: nat)
    requires
        k <= n,
    ensures
        file_body(objects, k).len() <= file_body(objects, n).len(),
        file_body(objects, n).take(file_body(objects, k).len() as int) == file_body(objects, k),
    decreases n - k,
{
    if k < n {
        lemma_body_prefix(objects, k, (n - 1) as nat);
        let shorter = file_body(objects, (n - 1) as nat);
        let full = file_body(objects, n);
        let length = file_body(objects, k).len() as int;
        assert(full.take(length) =~= shorter.take(length));
    } else {
        assert(file_body(objects, n).take(file_body(objects, n).len() as int) =~= file_body(
            objects,
            n,
        ));
    }
}

proof fn lemma_object_at_its_offset(objects: Seq<Seq<u8>>, back: Seq<u8>, k: nat)
    requires
        k < objects.len(),
    ensures
        ({
            let file = file_body(objects, objects.len()) + back;
            let offset = file_body(objects, k).len() as int;
            let object = object_header(k + 1) + objects[k as int] + "\nendobj\n".spec_bytes();
            &&& offset + object.len() <= file.len()
            &&& file.subrange(offset, offset + object.len()) == object
        }),
{
    let body = file_body(objects, objects.len());
    let before = file_body(objects, k);
    let next = file_body(objects, k + 1);
    let offset = before.len() as int;
    let object = object_header(k + 1) + objects[k as int] + "\nendobj\n".spec_bytes();
    lemma_body_prefix(objects, k + 1, objects.len());
    assert(next =~= before + object);
    assert(body.take(next.len() as int) == next);
    assert((body + back).subrange(offset, offset + object.len()) =~= body.take(
        next.len() as int,
    ).subrange(offset, offset + object.len()));
    assert(next.subrange(offset, offset + object.len()) =~= object);
}

/// The offset that the cross-reference table gives for an object is where the object starts.
pub proof fn objects_stand_at_their_offsets(
    pages: Seq<Page<'_>>,
    attributes: Seq<u8>,
    text: bool,
    k: nat,
)
    requires
        k < 2 + 2 * pages.len(),
    ensures
        ({
            let objects = file_objects(pages, attributes, text);
            let offset = file_body(objects, k).len() as int;
            let object = object_header(k + 1) + objects[k as int] + "\nendobj\n".spec_bytes();
            &&& offset + object.len() <= file_bytes(pages, attributes, text).len()
            &&& file_bytes(pages, attributes, text).subrange(offset, offset + object.len())
                == object
        }),
{
    let objects = file_objects(pages, attributes, text);
    lemma_object_at_its_offset(objects, file_tail(objects), k);
}

/// The offset that the trailer gives for the cross-reference table is where the table starts.
pub proof fn table_stands_at_its_offset(pages: Seq<Page<'_>>, attributes: Seq<u8>, text: bool)
    ensures
        ({
            let objects = file_objects(pages, attributes, text);
            let offset = file_body(objects, objects.len()).len() as int;
            file_bytes(pages, attributes, text).skip(offset) == file_tail(objects)
        }),
{
    let objects = file_objects(pages, attributes, text);
    let body = file_body(objects, objects.len());
    assert(file_bytes(pages, attributes, text).skip(body.len() as int) =~= file_tail(objects));
}

proof fn lemma_ten_digits(n: nat, digits: nat, limit: nat)
    requires
        digits >= 1,
        n < limit,
        limit == vstd::arithmetic::power::pow(10, digits),
    ensures
        decimal_bytes(n).len() <= digits,
    decreases digits,
{
    if n >= 10 {
        vstd::arithmetic::power::lemma_pow1(10);
        if digits == 1 {
            assert(false);
        }
        let smaller = vstd::arithmetic::power::pow(10, (digits - 1) as nat);
        vstd::arithmetic::power::lemma_pow_adds(10, 1, (digits - 1) as nat);
        assert(limit == 10 * smaller);
        lemma_ten_digits(n / 10, (digits - 1) as nat, smaller as nat);
    }
}

/// As long as the offsets have ten digits at most, every line of the table is twenty bytes long.
pub proof fn table_lines_are_twenty_bytes(objects: Seq<Seq<u8>>, k: nat)
    requires
        file_body(objects, k).len() < 10_000_000_000,
    ensures
        table_lines(objects, k).len() == 20 * k,
    decreases k,
{
    if k > 0 {
        let offset = file_body(objects, (k - 1) as nat).len();
        lemma_body_prefix(objects, (k - 1) as nat, k);
        table_lines_are_twenty_bytes(objects, (k - 1) as nat);
        assert(vstd::arithmetic::power::pow(10, 10) == 10_000_000_000) by {
            reveal_with_fuel(vstd::arithmetic::power::pow, 11);
        }
        lemma_ten_digits(offset, 10, 10_000_000_000);
        reveal_strlit(" 00000 n \n");
        is_ascii_chars_encode_utf8(" 00000 n \n"@);
    }
}

/// The number that decimal digits in ASCII stand for.
pub open spec fn bytes_as_number(digits: Seq<u8>) -> int
    decreases digits.len(),
{
    if digits.len() == 0 {
        0
    } else {
        10 * bytes_as_number(digits.drop_last()) + (digits.last() - 48)
    }
}

/// A number that is written can be read again, with zeros in front of it or without.
pub proof fn numbers_can_be_read_again(n: nat, width: nat)
    ensures
        bytes_as_number(decimal_bytes(n)) == n,
        bytes_as_number(padded_bytes(n, width)) == n,
        padded_bytes(n, width).len() >= width,
        forall|i: int|
            0 <= i < decimal_bytes(n).len() ==> 48 <= (#[trigger] decimal_bytes(n)[i]) <= 57,
{
    lemma_decimal_value(n);
    let digits = decimal_bytes(n);
    let zeros = if digits.len() < width {
        (width - digits.len()) as nat
    } else {
        0
    };
    lemma_leading_zeros(zeros, digits);
}

proof fn lemma_decimal_value(n: nat)
    ensures
        bytes_as_number(decimal_bytes(n)) == n,
        forall|i: int|
            0 <= i < decimal_bytes(n).len() ==> 48 <= (#[trigger] decimal_bytes(n)[i]) <= 57,
    decreases n,
{
    if n < 10 {
        assert(decimal_bytes(n).drop_last() =~= Seq::empty());
        assert(bytes_as_number(decimal_bytes(n).drop_last()) == 0);
    } else {
        lemma_decimal_value(n / 10);
        let front = decimal_bytes(n / 10);
        assert(decimal_bytes(n).drop_last() =~= front);
        assert forall|i: int| 0 <= i < decimal_bytes(n).len() implies 48 <= (
        #[trigger] decimal_bytes(n)[i]) <= 57 by {
            if i < front.len() {
                assert(decimal_bytes(n)[i] == front[i]);
            }
        }
    }
}

proof fn lemma_leading_zeros(zeros: nat, digits: Seq<u8>)
    ensures
        bytes_as_number(Seq::new(zeros, |i: int| 48u8) + digits) == bytes_as_number(digits),
    decreases zeros + digits.len(),
{
    let front = Seq::new(zeros, |i: int| 48u8);
    let all = front + digits;
    if digits.len() > 0 {
        lemma_leading_zeros(zeros, digits.drop_last());
        assert(all.drop_last() =~= front + digits.drop_last());
        assert(all.last() == digits.last());
    } else if zeros > 0 {
        lemma_leading_zeros((zeros - 1) as nat, digits);
        assert(all.drop_last() =~= Seq::new((zeros - 1) as nat, |i: int| 48u8) + digits);
        assert(all.last() == 48);
    } else {
        assert(all =~= digits);
    }
}

/// The file holds, for each page, the object that describes it and, behind it, the object with its
/// drawing instructions, under the number to which the first one refers; the object that lists the
/// pages refers to one more page for each page that the file has.
pub proof fn pages_refer_to_their_contents(
    pages: Seq<Page<'_>>,
    attributes: Seq<u8>,
    text: bool,
    index: nat,
)
    requires
        index < pages.len(),
    ensures
        ({
            let objects = file_objects(pages, attributes, text);
            let page = pages[index as int];
            &&& objects.len() == 2 + 2 * pages.len()
            &&& objects[2 + 2 * index as int] == page_object(page, index, attributes)
            &&& objects[3 + 2 * index as int] == content_object(page, text)
            &&& page_object(page, index, attributes).len() >= (decimal_bytes(
                (2 + 2 * index + 2) as nat,
            ) + " 0 R >>".spec_bytes()).len()
            &&& page_object(page, index, attributes).skip(
                page_object(page, index, attributes).len() - (decimal_bytes(
                    (2 + 2 * index + 2) as nat,
                ) + " 0 R >>".spec_bytes()).len(),
            ) == decimal_bytes((2 + 2 * index + 2) as nat) + " 0 R >>".spec_bytes()
            &&& kids(index + 1) == kids(index) + (if index == 0 {
                Seq::empty()
            } else {
                " ".spec_bytes()
            }) + decimal_bytes((2 + 2 * index + 1) as nat) + " 0 R".spec_bytes()
        }),
{
    let page = pages[index as int];
    let object = page_object(page, index, attributes);
    let end = decimal_bytes((4 + 2 * index) as nat) + " 0 R >>".spec_bytes();
    assert(object.skip(object.len() - end.len()) =~= end);
    assert((2 + 2 * index as int - 2) / 2 == index);
    assert((3 + 2 * index as int - 2) / 2 == index);
}

} // verus!
