//! Post assembly: one post from a content file's text, its name and the
//! dates to fall back on.
use vstd::prelude::*;
use crate::date::{display_date, format_date, parse_ymd, parsed_date, Date};
use crate::metadata::{body_of, body_text, metadata_of, texts, Metadata, MetadataView};
use crate::text::{chars_of, string_of};

verus! {

/// One published article.
pub struct Post {
    pub title: String,
    pub content: String,
    pub summary: String,
    pub date: String,
    pub tags: Vec<String>,
    pub filename: String,
    pub slug: String,
}

pub struct PostView {
    pub title: Seq<char>,
    pub content: Seq<char>,
    pub summary: Seq<char>,
    pub date: Seq<char>,
    pub tags: Seq<Seq<char>>,
    pub filename: Seq<char>,
    pub slug: Seq<char>,
}

impl View for Post {
    type V = PostView;

    open spec fn view(&self) -> PostView {
        PostView {
            title: self.title@,
            content: self.content@,
            summary: self.summary@,
            date: self.date@,
            tags: texts(self.tags@),
            filename: self.filename@,
            slug: self.slug@,
        }
    }
}

/// What pulldown-cmark renders from a Markdown text.
pub uninterp spec fn html_of(markdown: Seq<char>) -> Seq<char>;

/// What `str::to_lowercase` makes of a text.
pub uninterp spec fn lower_of(s: Seq<char>) -> Seq<char>;

/// Relies on pulldown-cmark's `Parser::new` and `html::push_html`: the HTML
/// fragment rendered from a Markdown text depends on that text alone.
#[verifier::external_body]
fn render_markdown(markdown: &str) -> (r: String)
    ensures
        r@ == html_of(markdown@),
{
    let parser = pulldown_cmark::Parser::new(markdown);
    let mut html_output = String::new();
    pulldown_cmark::html::push_html(&mut html_output, parser);
    html_output
}

/// Relies on `str::to_lowercase`: the result depends on the text alone.
#[verifier::external_body]
fn lowercase(s: &str) -> (r: String)
    ensures
        r@ == lower_of(s@),
{
    s.to_lowercase()
}

/// Markdown rendered to an HTML fragment.
pub fn markdown_to_html(markdown: &str) -> (r: String)
    ensures
        r@ == html_of(markdown@),
{
    render_markdown(markdown)
}

/// Every space replaced by a hyphen, nothing else changed.
pub open spec fn hyphenated(s: Seq<char>) -> Seq<char> {
    s.map_values(|c: char| if c == ' ' { '-' } else { c })
}

/// The slug of a title: lowercased, spaces replaced by hyphens.
pub open spec fn slug_text(title: Seq<char>) -> Seq<char> {
    hyphenated(lower_of(title))
}

/// Replaces each space of an already lowercased title by a hyphen.
pub fn hyphenate(lowered: &str) -> (r: String)
    ensures
        r@ == hyphenated(lowered@),
{
    let v = chars_of(lowered);
    let mut out: Vec<char> = Vec::new();
    let mut i: usize = 0;
    while i < v.len()
        invariant
            i <= v@.len(),
            out@ == hyphenated(v@.subrange(0, i as int)),
        decreases v@.len() - i,
    {
        if v[i] == ' ' {
            out.push('-');
        } else {
            out.push(v[i]);
        }
        i = i + 1;
        assert(out@ =~= hyphenated(v@.subrange(0, i as int)));
    }
    assert(v@.subrange(0, i as int) =~= v@);
    string_of(&out)
}

/// The URL identifier of a post with this title.
pub fn slugify(title: &str) -> (r: String)
    ensures
        r@ == slug_text(title@),
{
    let lowered = lowercase(title);
    hyphenate(lowered.as_str())
}

/// The day a post is dated: its own date field where that parses, else the
/// file's modification day, else today.
pub open spec fn post_date(field: Seq<char>, modified: Option<Date>, now: Date) -> Date {
    match parsed_date(field) {
        Some(d) => d,
        None => match modified {
            Some(m) => m,
            None => now,
        },
    }
}

pub open spec fn fallbacks_valid(modified: Option<Date>, now: Date) -> bool {
    now.valid() && (modified matches Some(m) ==> m.valid())
}

/// The first of the three candidates that is present.
pub fn choose_date(parsed: Option<Date>, modified: Option<Date>, now: Date) -> (r: Date)
    ensures
        r == (match parsed {
            Some(d) => d,
            None => match modified {
                Some(m) => m,
                None => now,
            },
        }),
{
    match parsed {
        Some(d) => d,
        None => match modified {
            Some(m) => m,
            None => now,
        },
    }
}

/// Resolves the date of a post from its date field and the fallbacks.
pub fn resolve_date(field: &str, modified: Option<Date>, now: Date) -> (r: Date)
    requires
        fallbacks_valid(modified, now),
    ensures
        r == post_date(field@, modified, now),
        r.valid(),
{
    choose_date(parse_ymd(field), modified, now)
}

/// The post a content file with this metadata yields, dated `date`.
pub open spec fn post_of(text: Seq<char>, name: Seq<char>, m: MetadataView, date: Date)
    -> PostView
{
    PostView {
        title: m.title,
        content: html_of(body_text(text)),
        summary: m.summary,
        date: display_date(date),
        tags: m.tags,
        filename: name,
        slug: slug_text(m.title),
    }
}

/// The post of a file and the day it is dated, or `None` when the text has
/// no metadata block.
pub open spec fn assembled(text: Seq<char>, name: Seq<char>, modified: Option<Date>, now: Date)
    -> Option<(Date, PostView)>
{
    match metadata_of(text) {
        None => None,
        Some(m) => {
            let d = post_date(m.date, modified, now);
            Some((d, post_of(text, name, m, d)))
        },
    }
}

fn copy_texts(v: &Vec<String>) -> (r: Vec<String>)
    ensures
        texts(r@) == texts(v@),
{
    let mut r: Vec<String> = Vec::new();
    let mut i: usize = 0;
    while i < v.len()
        invariant
            i <= v@.len(),
            r@.len() == i,
            forall|k: int| 0 <= k < i ==> r@[k]@ == v@[k]@,
        decreases v@.len() - i,
    {
        let t = v[i].clone();
        r.push(t);
        i = i + 1;
    }
    assert(texts(r@) =~= texts(v@));
    r
}

/// Builds the post of a file whose metadata `meta` was read from `content`,
/// dated `date`.
pub(crate) fn build_post(content: &str, filename: &str, meta: &Metadata, date: Date) -> (r: Post)
    requires
        date.valid(),
    ensures
        r@ == post_of(content@, filename@, meta@, date),
{
    let body = body_of(content);
    Post {
        title: meta.title.clone(),
        content: render_markdown(body.as_str()),
        summary: meta.summary.clone(),
        date: format_date(date),
        tags: copy_texts(&meta.tags),
        filename: string_of(&chars_of(filename)),
        slug: slugify(meta.title.as_str()),
    }
}

/// The post of a content file whose metadata `meta` was read from `content`.
/// It is dated by its own date field where that parses, else by the file's
/// modification day, else by `now`.
pub fn assemble_post(
    content: &str,
    filename: &str,
    meta: &Metadata,
    modified: Option<Date>,
    now: Date,
) -> (r: Post)
    requires
        fallbacks_valid(modified, now),
    ensures
        r@ == post_of(content@, filename@, meta@, post_date(meta@.date, modified, now)),
{
    let date = resolve_date(meta.date.as_str(), modified, now);
    build_post(content, filename, meta, date)
}


/// A date field that parses decides the day of the post: neither the file's
/// modification day nor today plays a part.
pub proof fn lemma_date_field_decides(
    field: Seq<char>,
    modified1: Option<Date>,
    modified2: Option<Date>,
    now1: Date,
    now2: Date,
)
    requires
        parsed_date(field) is Some,
    ensures
        post_date(field, modified1, now1) == parsed_date(field)->0,
        post_date(field, modified1, now1) == post_date(field, modified2, now2),
{
}

/// Without a date field that parses, a post is dated by its file's
/// modification day, or else by today, and its displayed date is never
/// empty.
pub proof fn lemma_fallback_date(field: Seq<char>, modified: Option<Date>, now: Date)
    requires
        parsed_date(field) is None,
    ensures
        post_date(field, modified, now) == (match modified {
            Some(m) => m,
            None => now,
        }),
        display_date(post_date(field, modified, now)).len() > 0,
{
    let d = post_date(field, modified, now);
    assert(crate::date::month_name(d.month as int).len() >= 3);
}

} // verus!
