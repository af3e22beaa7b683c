//! EPUB export: a cover page, then one XHTML chapter per document in
//! binder order (folders too, so the table of contents mirrors the project
//! tree), packed by `epub-builder` into a zip container.
use vstd::prelude::*;
use vstd::string::*;

use epub_builder::{EpubBuilder, ZipLibrary};

use crate::domain::{DocNode, Project};
use crate::error::{AppError, AppResult};
use crate::exporter::util::{flatten_in_order, preorder, push_xml_escaped, xml_escaped};
use crate::segments::{decimal, decimal_string, utf8_bytes, utf8_encode};
use crate::text::{push_char, starts_with, trim, trim_str};

verus! {

/// `epub_builder::ZipLibrary`, the in-memory zip writer of the builder.
#[verifier::external_type_specification]
#[verifier::external_body]
pub struct ExZipLibrary(epub_builder::ZipLibrary);

/// An `EpubBuilder` over the in-memory zip writer. Its `Zip` bound names a
/// trait the crate does not export, so the builder cannot be declared to
/// Verus and is held, opaque, in this struct.
#[verifier::external_body]
pub struct EpubBook {
    builder: EpubBuilder<ZipLibrary>,
}

/// `epub_builder::Error`.
#[verifier::external_type_specification]
#[verifier::external_body]
pub struct ExEpubError(epub_builder::Error);

/// The metadata a builder holds that this library sets: its title, and
/// its list of authors in the order they were added.
pub uninterp spec fn epub_metadata(b: EpubBook) -> (Seq<char>, Seq<Seq<char>>);

/// The contents added to a builder, in order: `(href, XHTML bytes, title,
/// whether it is the title page)`; other contents are plain text chapters.
pub uninterp spec fn epub_contents(b: EpubBook) -> Seq<(Seq<char>, Seq<u8>, Seq<char>, bool)>;

/// `ZipLibrary::new`: starts the zip with its `mimetype` entry. Nothing is
/// promised of the outcome.
#[verifier::external_body]
fn zip_library_new() -> (r: Result<ZipLibrary, epub_builder::Error>) {
    ZipLibrary::new()
}

/// `EpubBuilder::new`: a builder whose metadata is the default one (an
/// empty title, no author) and which holds no content.
#[verifier::external_body]
fn builder_new(zip: ZipLibrary) -> (r: Result<EpubBook, epub_builder::Error>)
    ensures
        r matches Ok(b) ==> epub_metadata(b) == (Seq::<char>::empty(), Seq::<Seq<char>>::empty())
            && epub_contents(b) == Seq::<(Seq<char>, Seq<u8>, Seq<char>, bool)>::empty(),
{
    match EpubBuilder::new(zip) {
        Ok(builder) => Ok(EpubBook { builder }),
        Err(e) => Err(e),
    }
}

/// `EpubBuilder::metadata` with the key `title` or `author`, which it
/// always accepts. `title` replaces the title. `author` appends the value
/// to the author list, except that an empty value clears the list. The
/// other part of the metadata and the contents are untouched.
#[verifier::external_body]
fn builder_metadata(b: &mut EpubBook, key: &str, value: &str) -> (r: Result<(), epub_builder::Error>)
    requires
        key@ == "title"@ || key@ == "author"@,
    ensures
        r is Ok,
        key@ == "title"@ ==> epub_metadata(*final(b)) == (value@, epub_metadata(*old(b)).1),
        key@ == "author"@ ==> epub_metadata(*final(b)) == (
            epub_metadata(*old(b)).0,
            if value@.len() == 0 {
                Seq::<Seq<char>>::empty()
            } else {
                epub_metadata(*old(b)).1.push(value@)
            },
        ),
        epub_contents(*final(b)) == epub_contents(*old(b)),
{
    match b.builder.metadata(key, value) {
        Ok(_) => Ok(()),
        Err(e) => Err(e),
    }
}

/// `EpubBuilder::add_content` of `EpubContent::new(href, xhtml)` with its
/// title and reference type (title page or text): on success the builder
/// comes back with the content appended and its metadata untouched; on a
/// failed zip write the builder is dropped and the error returned.
#[verifier::external_body]
fn builder_add_content(
    b: EpubBook,
    href: &str,
    xhtml: &[u8],
    title: &str,
    title_page: bool,
) -> (r: Result<EpubBook, epub_builder::Error>)
    ensures
        r matches Ok(o) ==> epub_contents(o) == epub_contents(b).push((href@, xhtml@, title@, title_page))
            && epub_metadata(o) == epub_metadata(b),
{
    let reftype = if title_page {
        epub_builder::ReferenceType::TitlePage
    } else {
        epub_builder::ReferenceType::Text
    };
    let content = epub_builder::EpubContent::new(href, xhtml).title(title).reftype(reftype);
    let mut builder = b.builder;
    let added = builder.add_content(content).map(|_| ());
    match added {
        Ok(()) => Ok(EpubBook { builder }),
        Err(e) => Err(e),
    }
}

/// `EpubBuilder::generate` into a byte vector. The container holds a
/// generated identifier and a timestamp, so nothing is promised of the
/// bytes.
#[verifier::external_body]
fn builder_generate(b: EpubBook) -> (r: Result<Vec<u8>, epub_builder::Error>) {
    let mut out: Vec<u8> = Vec::new();
    match b.builder.generate(&mut out) {
        Ok(()) => Ok(out),
        Err(e) => Err(e),
    }
}

/// The `Display` text of an `epub_builder::Error`. Nothing is promised of
/// the text.
#[verifier::external_body]
fn epub_error_text(e: &epub_builder::Error) -> (r: String) {
    e.to_string()
}

/// A failed EPUB step: an `Unexpected` error whose message starts with
/// `epub `.
pub open spec fn epub_error(e: AppError) -> bool {
    e matches AppError::Unexpected(m) && starts_with(m@, "epub "@)
}

/// `e` is the library error for the step `stage` failing with `x`:
/// `epub <stage>: <the text of x>`.
pub closed spec fn failed_with(e: AppError, stage: Seq<char>, x: epub_builder::Error) -> bool {
    exists|t: String|
        #![trigger call_ensures(epub_error_text, (&x,), t)]
        call_ensures(epub_error_text, (&x,), t) && (e matches AppError::Unexpected(m) && m@ == "epub "@
            + stage + ": "@ + t@)
}

/// `ZipLibrary::new` failed with `x`.
pub closed spec fn zip_init_refused(x: epub_builder::Error) -> bool {
    call_ensures(zip_library_new, (), Err::<ZipLibrary, epub_builder::Error>(x))
}

/// `EpubBuilder::new` failed with `x`.
pub closed spec fn builder_init_refused(x: epub_builder::Error) -> bool {
    exists|z: ZipLibrary|
        #![trigger call_ensures(builder_new, (z,), Err::<EpubBook, epub_builder::Error>(x))]
        call_ensures(builder_new, (z,), Err::<EpubBook, epub_builder::Error>(x))
}

/// `EpubBuilder::add_content` failed with `x` on adding `href`.
pub closed spec fn content_refused(href: &str, x: epub_builder::Error) -> bool {
    exists|b: EpubBook, c: &[u8], t: &str, p: bool|
        #![trigger call_ensures(builder_add_content, (b, href, c, t, p), Err::<EpubBook, epub_builder::Error>(x))]
        call_ensures(builder_add_content, (b, href, c, t, p), Err::<EpubBook, epub_builder::Error>(x))
}

/// `EpubBuilder::generate` gave `g` for the builder `b`.
pub closed spec fn generated(b: EpubBook, g: Result<Vec<u8>, epub_builder::Error>) -> bool {
    call_ensures(builder_generate, (b,), g)
}

/// The library error for a failed builder step: `epub <stage>: <cause>`.
fn epub_failure(stage: &str, e: &epub_builder::Error) -> (r: AppError)
    ensures
        r matches AppError::Unexpected(m) && starts_with(m@, "epub "@ + stage@ + ": "@),
        epub_error(r),
        failed_with(r, stage@, *e),
{
    let mut m = String::from_str("epub ");
    m.append(stage);
    m.append(": ");
    let ghost head = m@;
    let cause = epub_error_text(e);
    m.append(cause.as_str());
    assert(m@.subrange(0, head.len() as int) =~= head);
    assert(call_ensures(epub_error_text, (e,), cause));
    proof {
        reveal_strlit("epub ");
        assert(m@.subrange(0, 5) =~= "epub "@);
    }
    AppError::Unexpected(m)
}

/// The XML prologue shared by every page.
pub open spec fn xhtml_head() -> Seq<char> {
    "<?xml version=\"1.0\" encoding=\"utf-8\"?>\n<!DOCTYPE html>\n<html xmlns=\"http://www.w3.org/1999/xhtml\">\n<head><title>"@
}

/// The cover page: the escaped title as page title and heading.
pub open spec fn cover_xhtml(title: Seq<char>) -> Seq<char> {
    xhtml_head() + xml_escaped(title) + "</title></head>\n<body><h1>"@ + xml_escaped(title)
        + "</h1></body>\n</html>"@
}

/// A chapter page: escaped title as page title and heading, then the
/// content HTML as is (nothing when blank).
pub open spec fn chapter_xhtml(title: Seq<char>, content: Seq<char>) -> Seq<char> {
    let body = if trim(content).len() > 0 {
        content
    } else {
        Seq::<char>::empty()
    };
    xhtml_head() + xml_escaped(title) + "</title></head>\n<body>\n<h1>"@ + xml_escaped(title)
        + "</h1>\n"@ + body + "\n</body>\n</html>"@
}

/// A decimal text left-padded with zeros to three digits.
pub open spec fn pad3(s: Seq<char>) -> Seq<char> {
    if s.len() < 3 {
        Seq::new((3 - s.len()) as nat, |i: int| '0') + s
    } else {
        s
    }
}

/// The file name of the `n`-th chapter: `ch001.xhtml`, `ch002.xhtml`, …
pub open spec fn chapter_href(n: nat) -> Seq<char> {
    "ch"@ + pad3(decimal(n)) + ".xhtml"@
}

/// The content of a document, empty when absent.
pub open spec fn content_or_empty(d: DocNode) -> Seq<char> {
    match d.content {
        Some(h) => h@,
        None => Seq::empty(),
    }
}

/// The metadata of the book: the project title, and as its one author the
/// metadata `author` string when the project has a non-empty one.
pub open spec fn book_metadata(p: Project) -> (Seq<char>, Seq<Seq<char>>) {
    let authors = match p.metadata {
        Some(m) => match m.author {
            Some(a) => if a@.len() == 0 {
                Seq::empty()
            } else {
                seq![a@]
            },
            None => Seq::empty(),
        },
        None => Seq::empty(),
    };
    (p.title@, authors)
}

/// The contents of the book: the cover as title page, then each document
/// in binder order as a text chapter named by its title.
pub open spec fn book_contents(p: Project, docs: Seq<DocNode>) -> Seq<(Seq<char>, Seq<u8>, Seq<char>, bool)> {
    let order = preorder(docs);
    seq![("cover.xhtml"@, utf8_encode(cover_xhtml(p.title@)), p.title@, true)] + Seq::new(
        order.len(),
        |k: int|
            (
                chapter_href((k + 1) as nat),
                utf8_encode(chapter_xhtml(docs[order[k].1].title@, content_or_empty(docs[order[k].1]))),
                docs[order[k].1].title@,
                false,
            ),
    )
}

/// The cover page of a title.
fn title_chapter_xhtml(title: &str) -> (r: String)
    ensures
        r@ == cover_xhtml(title@),
{
    let mut r = String::from_str(
        "<?xml version=\"1.0\" encoding=\"utf-8\"?>\n<!DOCTYPE html>\n<html xmlns=\"http://www.w3.org/1999/xhtml\">\n<head><title>",
    );
    push_xml_escaped(&mut r, title);
    r.append("</title></head>\n<body><h1>");
    push_xml_escaped(&mut r, title);
    r.append("</h1></body>\n</html>");
    r
}

/// The page of one chapter.
fn chapter_page(title: &str, content_html: &str) -> (r: String)
    ensures
        r@ == chapter_xhtml(title@, content_html@),
{
    let mut r = String::from_str(
        "<?xml version=\"1.0\" encoding=\"utf-8\"?>\n<!DOCTYPE html>\n<html xmlns=\"http://www.w3.org/1999/xhtml\">\n<head><title>",
    );
    push_xml_escaped(&mut r, title);
    r.append("</title></head>\n<body>\n<h1>");
    push_xml_escaped(&mut r, title);
    r.append("</h1>\n");
    if trim_str(content_html).len() > 0 {
        r.append(content_html);
    }
    r.append("\n</body>\n</html>");
    r
}

/// The file name of the `n`-th chapter.
fn chapter_filename(n: usize) -> (r: String)
    ensures
        r@ == chapter_href(n as nat),
{
    let digits = decimal_string(n as u128);
    let mut r = String::from_str("ch");
    let ghost head = r@;
    let len = digits.as_str().unicode_len();
    let mut k: usize = len;
    while k < 3
        invariant
            len <= k,
            k <= 3 || k == len,
            len == digits@.len(),
            r@ == head + Seq::new((k - len) as nat, |i: int| '0'),
        decreases 3 - k,
    {
        push_char(&mut r, '0');
        assert(r@ =~= head + Seq::new((k + 1 - len) as nat, |i: int| '0'));
        k += 1;
    }
    r.append(digits.as_str());
    r.append(".xhtml");
    proof {
        if len >= 3 {
            assert(Seq::new(0nat, |i: int| '0') + digits@ =~= digits@);
        }
        assert(r@ =~= chapter_href(n as nat));
    }
    r
}

/// A failed filling of a builder: the zip container, the builder, or
/// adding the cover or a chapter failed, and the error names that step
/// and carries the failure's text.
pub open spec fn book_build_failed(e: AppError) -> bool {
    ||| exists|x: epub_builder::Error| #[trigger] zip_init_refused(x) && failed_with(e, "zip init"@, x)
    ||| exists|x: epub_builder::Error|
        #[trigger] builder_init_refused(x) && failed_with(e, "builder init"@, x)
    ||| exists|x: epub_builder::Error|
        #[trigger] content_refused("cover.xhtml", x) && failed_with(e, "cover"@, x)
    ||| exists|h: &str, x: epub_builder::Error| #[trigger] content_refused(h, x) && failed_with(e, "chapter"@, x)
}

/// A builder holding the book of a project.
pub open spec fn holds_book(b: EpubBook, p: Project, docs: Seq<DocNode>) -> bool {
    epub_metadata(b) == book_metadata(p) && epub_contents(b) == book_contents(p, docs)
}

/// Fill a builder with the book of a project: title (and author)
/// metadata, the cover, then one chapter per document in binder order.
/// Every failing step is reported as an `Unexpected` error naming it.
pub fn build_book(project: &Project, documents: &[DocNode]) -> (r: AppResult<EpubBook>)
    requires
        documents@.len() < usize::MAX,
    ensures
        r matches Ok(b) ==> holds_book(b, *project, documents@),
        r matches Err(e) ==> epub_error(e) && book_build_failed(e),
{
    let zip = match zip_library_new() {
        Ok(z) => z,
        Err(e) => {
            let f = epub_failure("zip init", &e);
            assert(zip_init_refused(e));
            return Err(f);
        },
    };
    let mut builder = match builder_new(zip) {
        Ok(b) => b,
        Err(e) => {
            let f = epub_failure("builder init", &e);
            assert(builder_init_refused(e));
            return Err(f);
        },
    };
    let title = project.title.as_str();
    let _ = builder_metadata(&mut builder, "title", title);
    match &project.metadata {
        Some(meta) => match &meta.author {
            Some(author) => {
                let _ = builder_metadata(&mut builder, "author", author.as_str());
            },
            None => {},
        },
        None => {},
    }
    assert(epub_metadata(builder) == book_metadata(*project));
    let cover = title_chapter_xhtml(title);
    let cover_bytes = utf8_bytes(cover.as_str());
    builder = match builder_add_content(builder, "cover.xhtml", cover_bytes.as_slice(), title, true) {
        Ok(b) => b,
        Err(e) => {
            let f = epub_failure("cover", &e);
            assert(content_refused("cover.xhtml", e));
            return Err(f);
        },
    };
    let ghost order = preorder(documents@);
    let ghost meta = epub_metadata(builder);
    let ordered = flatten_in_order(documents);
    let mut idx: usize = 0;
    while idx < ordered.len()
        invariant
            idx <= ordered@.len(),
            ordered@.len() == order.len(),
            order == preorder(documents@),
            meta == book_metadata(*project),
            epub_metadata(builder) == meta,
            forall|k: int|
                #![trigger ordered@[k]]
                0 <= k < ordered@.len() ==> ordered@[k].0 as int == order[k].0 && 0 <= order[k].1
                    < documents@.len() && *ordered@[k].1 == documents@[order[k].1],
            epub_contents(builder) == book_contents(*project, documents@).take(idx + 1),
        decreases ordered@.len() - idx,
    {
        let (_depth, doc) = ordered[idx];
        let filename = chapter_filename(idx + 1);
        let content: &str = match &doc.content {
            Some(h) => h.as_str(),
            None => "",
        };
        let page = chapter_page(doc.title.as_str(), content);
        let bytes = utf8_bytes(page.as_str());
        let href = filename.as_str();
        builder = match builder_add_content(builder, href, bytes.as_slice(), doc.title.as_str(), false) {
            Ok(b) => b,
            Err(e) => {
                let f = epub_failure("chapter", &e);
                assert(content_refused(href, e));
                return Err(f);
            },
        };
        proof {
            reveal_strlit("");
            assert(content@ == content_or_empty(documents@[order[idx as int].1]));
            assert(book_contents(*project, documents@).take(idx + 2) =~= book_contents(
                *project,
                documents@,
            ).take(idx + 1).push(book_contents(*project, documents@)[idx + 1]));
        }
        idx += 1;
    }
    assert(book_contents(*project, documents@).take(ordered@.len() as int + 1) =~= book_contents(
        *project,
        documents@,
    ));
    Ok(builder)
}

/// `r` is what rendering gives: on success the bytes `epub-builder`
/// generated from a builder holding the book; on failure an error naming
/// the step, the filling of the builder or the generation.
pub open spec fn epub_export(p: Project, docs: Seq<DocNode>, r: AppResult<Vec<u8>>) -> bool {
    &&& r matches Ok(out) ==> exists|b: EpubBook|
        #![trigger generated(b, Ok::<Vec<u8>, epub_builder::Error>(out))]
        holds_book(b, p, docs) && generated(b, Ok::<Vec<u8>, epub_builder::Error>(out))
    &&& r matches Err(e) ==> epub_error(e) && (book_build_failed(e) || exists|b: EpubBook, x: epub_builder::Error|
        #![trigger generated(b, Err::<Vec<u8>, epub_builder::Error>(x))]
        holds_book(b, p, docs) && generated(b, Err::<Vec<u8>, epub_builder::Error>(x))
            && failed_with(e, "generate"@, x))
}

/// Render a project as an EPUB container: the book `build_book` fills,
/// generated by `epub-builder`. The container bytes hold a random book id
/// and a timestamp, so only the call that made them is stated; every
/// failing step is an `Unexpected` error naming it.
pub fn render(project: &Project, documents: &[DocNode]) -> (r: AppResult<Vec<u8>>)
    requires
        documents@.len() < usize::MAX,
    ensures
        epub_export(*project, documents@, r),
{
    let builder = match build_book(project, documents) {
        Ok(b) => b,
        Err(e) => {
            return Err(e);
        },
    };
    let ghost bv = builder;
    assert(holds_book(bv, *project, documents@));
    let g = builder_generate(builder);
    assert(generated(bv, g));
    match g {
        Ok(out) => {
            assert(generated(bv, Ok::<Vec<u8>, epub_builder::Error>(out)));
            let r: AppResult<Vec<u8>> = Ok(out);
            assert(r matches Ok(o) && o == out);
            r
        },
        Err(e) => {
            let f = epub_failure("generate", &e);
            assert(generated(bv, Err::<Vec<u8>, epub_builder::Error>(e)));
            Err(f)
        },
    }
}

} // verus!
