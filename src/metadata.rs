//! The metadata block at the top of a content file: the `---` delimiters,
//! the `key: value` lines between them, and the body that follows.
use vstd::prelude::*;
use crate::text::{
    chars_of, find_char, first_index, slice, split, string_of,
    strip_quotes, trim, trim_range, without_quotes,
};

verus! {

/// The header fields of one content file.
pub struct Metadata {
    pub title: String,
    pub date: String,
    pub tags: Vec<String>,
    pub summary: String,
}

pub struct MetadataView {
    pub title: Seq<char>,
    pub date: Seq<char>,
    pub tags: Seq<Seq<char>>,
    pub summary: Seq<char>,
}

pub open spec fn texts(v: Seq<String>) -> Seq<Seq<char>> {
    v.map_values(|t: String| t@)
}

impl View for Metadata {
    type V = MetadataView;

    open spec fn view(&self) -> MetadataView {
        MetadataView {
            title: self.title@,
            date: self.date@,
            tags: texts(self.tags@),
            summary: self.summary@,
        }
    }
}

/// Every field empty: what a header without recognised keys yields.
pub open spec fn empty_metadata() -> MetadataView {
    MetadataView {
        title: Seq::empty(),
        date: Seq::empty(),
        tags: Seq::empty(),
        summary: Seq::empty(),
    }
}

pub open spec fn delimiter_at(s: Seq<char>, i: int) -> bool {
    0 <= i && i + 3 <= s.len() && s[i] == '-' && s[i + 1] == '-' && s[i + 2] == '-'
}

/// The first `---` that starts at `from` or later.
pub open spec fn next_delimiter(s: Seq<char>, from: int) -> Option<int>
    decreases s.len() - from,
{
    if from < 0 || from + 3 > s.len() {
        None
    } else if delimiter_at(s, from) {
        Some(from)
    } else {
        next_delimiter(s, from + 1)
    }
}

/// Where the first two `---` markers start: present exactly when splitting
/// the text on the marker gives at least three segments.
pub open spec fn delimiters(s: Seq<char>) -> Option<(int, int)> {
    match next_delimiter(s, 0) {
        None => None,
        Some(a) => match next_delimiter(s, a + 3) {
            None => None,
            Some(b) => Some((a, b)),
        },
    }
}

/// The third segment: everything after the second marker, or nothing.
pub open spec fn body_text(s: Seq<char>) -> Seq<char> {
    match delimiters(s) {
        Some((_, b)) => s.subrange(b + 3, s.len() as int),
        None => Seq::empty(),
    }
}

/// A piece of a list value: trimmed, quotes removed.
pub open spec fn clean(p: Seq<char>) -> Seq<char> {
    without_quotes(trim(p))
}

/// A comma-separated list value.
pub open spec fn tags_of(v: Seq<char>) -> Seq<Seq<char>> {
    split(v, ',').map_values(|p: Seq<char>| clean(p))
}

/// The effect of one header line: split once on its first colon, both sides
/// trimmed; a recognised key overwrites its field, anything else is ignored.
pub open spec fn apply_line(m: MetadataView, line: Seq<char>) -> MetadataView {
    match first_index(line, ':') {
        None => m,
        Some(k) => {
            let key = trim(line.subrange(0, k));
            let value = trim(line.subrange(k + 1, line.len() as int));
            if key == seq!['t', 'i', 't', 'l', 'e'] {
                MetadataView { title: without_quotes(value), ..m }
            } else if key == seq!['d', 'a', 't', 'e'] {
                MetadataView { date: value, ..m }
            } else if key == seq!['t', 'a', 'g', 's'] {
                MetadataView { tags: tags_of(value), ..m }
            } else if key == seq!['s', 'u', 'm', 'm', 'a', 'r', 'y'] {
                MetadataView { summary: without_quotes(value), ..m }
            } else {
                m
            }
        },
    }
}

/// Lines applied in order to empty metadata, so the last occurrence of a
/// key wins.
pub open spec fn apply_lines(lines: Seq<Seq<char>>) -> MetadataView
    decreases lines.len(),
{
    if lines.len() == 0 {
        empty_metadata()
    } else {
        apply_line(apply_lines(lines.drop_last()), lines.last())
    }
}

/// The header read line by line. Splitting on `\n` alone is enough: a
/// carriage return before it ends up in the value, which is trimmed, and a
/// line without a colon (an empty one included) changes nothing.
pub open spec fn read_header(h: Seq<char>) -> MetadataView {
    apply_lines(split(h, '\n'))
}

/// The metadata of a file, or `None` when it has no delimited header.
pub open spec fn metadata_of(s: Seq<char>) -> Option<MetadataView> {
    match delimiters(s) {
        None => None,
        Some((a, b)) => Some(read_header(s.subrange(a + 3, b))),
    }
}

pub open spec fn has_metadata(s: Seq<char>) -> bool {
    delimiters(s) is Some
}

fn equals_word(v: &Vec<char>, w: &[char]) -> (r: bool)
    ensures
        r == (v@ == w@),
{
    if v.len() != w.len() {
        return false;
    }
    let mut i: usize = 0;
    while i < v.len()
        invariant
            i <= v@.len() == w@.len(),
            forall|j: int| 0 <= j < i ==> v@[j] == w@[j],
        decreases v@.len() - i,
    {
        if v[i] != w[i] {
            return false;
        }
        i = i + 1;
    }
    assert(v@ =~= w@);
    true
}


/// The first `---` at `from` or later.
fn find_delimiter(v: &Vec<char>, from: usize) -> (r: Option<usize>)
    ensures
        r matches Some(i) ==> from <= i && i + 3 <= v@.len() && next_delimiter(v@, from as int)
            == Some(i as int),
        r is None ==> next_delimiter(v@, from as int) is None,
{
    let mut i: usize = from;
    while i < v.len() && v.len() - i >= 3
        invariant
            from <= i,
            next_delimiter(v@, i as int) == next_delimiter(v@, from as int),
        decreases v@.len() - i,
    {
        if v[i] == '-' && v[i + 1] == '-' && v[i + 2] == '-' {
            return Some(i);
        }
        i = i + 1;
    }
    None
}

/// The cleaned pieces of a comma-separated value.
fn split_tags(v: &Vec<char>) -> (r: Vec<String>)
    ensures
        texts(r@) == tags_of(v@),
{
    let mut r: Vec<String> = Vec::new();
    let mut start: usize = 0;
    let mut i: usize = 0;
    while i < v.len()
        invariant
            start <= i <= v@.len(),
            split(v@.subrange(0, i as int), ',').len() >= 1,
            texts(r@) == split(v@.subrange(0, i as int), ',').drop_last().map_values(
                |p: Seq<char>| clean(p),
            ),
            split(v@.subrange(0, i as int), ',').last() == v@.subrange(start as int, i as int),
        decreases v@.len() - i,
    {
        let ghost before = split(v@.subrange(0, i as int), ',');
        let ghost done = texts(r@);
        assert(v@.subrange(0, i as int + 1).drop_last() =~= v@.subrange(0, i as int));
        let ghost after = split(v@.subrange(0, i as int + 1), ',');
        if v[i] == ',' {
            let piece = strip_quotes(&trim_range(v, start, i));
            let t = string_of(&piece);
            r.push(t);
            start = i + 1;
            assert(after == before.push(Seq::empty()));
            assert(after.drop_last() =~= before);
            assert(before =~= before.drop_last().push(before.last()));
            assert(texts(r@) =~= done.push(t@));
            assert(texts(r@) =~= after.drop_last().map_values(|p: Seq<char>| clean(p)));
            assert(after.last() =~= v@.subrange(start as int, i as int + 1));
        } else {
            assert(after == before.update(before.len() - 1, before.last().push(v@[i as int])));
            assert(after.drop_last() =~= before.drop_last());
            assert(after.last() =~= v@.subrange(start as int, i as int + 1));
        }
        i = i + 1;
    }
    let ghost all = split(v@.subrange(0, i as int), ',');
    let ghost done = texts(r@);
    let piece = strip_quotes(&trim_range(v, start, i));
    let t = string_of(&piece);
    r.push(t);
    assert(texts(r@) =~= done.push(t@));
    assert(v@.subrange(0, i as int) =~= v@);
    assert(all =~= all.drop_last().push(all.last()));
    assert(texts(r@) =~= tags_of(v@));
    r
}

/// Applies one header line `v[lo..hi]` to `meta`.
fn read_line(meta: &mut Metadata, v: &Vec<char>, lo: usize, hi: usize)
    requires
        lo <= hi <= v@.len(),
    ensures
        final(meta)@ == apply_line(old(meta)@, v@.subrange(lo as int, hi as int)),
{
    let line = slice(v, lo, hi);
    match find_char(&line, ':') {
        None => {},
        Some(k) => {
            let key = trim_range(&line, 0, k);
            let value = trim_range(&line, k + 1, line.len());
            if equals_word(&key, &['t', 'i', 't', 'l', 'e']) {
                meta.title = string_of(&strip_quotes(&value));
            } else if equals_word(&key, &['d', 'a', 't', 'e']) {
                meta.date = string_of(&value);
            } else if equals_word(&key, &['t', 'a', 'g', 's']) {
                meta.tags = split_tags(&value);
            } else if equals_word(&key, &['s', 'u', 'm', 'm', 'a', 'r', 'y']) {
                meta.summary = string_of(&strip_quotes(&value));
            }
        },
    }
}


fn empty() -> (r: Metadata)
    ensures
        r@ == empty_metadata(),
{
    let r = Metadata {
        title: String::new(),
        date: String::new(),
        tags: Vec::new(),
        summary: String::new(),
    };
    assert(r@.tags =~= Seq::<Seq<char>>::empty());
    r
}

/// Reads the header `h` line by line.
fn read_header_lines(h: &Vec<char>) -> (r: Metadata)
    ensures
        r@ == read_header(h@),
{
    let mut meta = empty();
    let mut start: usize = 0;
    let mut i: usize = 0;
    while i < h.len()
        invariant
            start <= i <= h@.len(),
            split(h@.subrange(0, i as int), '\n').len() >= 1,
            meta@ == apply_lines(split(h@.subrange(0, i as int), '\n').drop_last()),
            split(h@.subrange(0, i as int), '\n').last() == h@.subrange(start as int, i as int),
        decreases h@.len() - i,
    {
        let ghost before = split(h@.subrange(0, i as int), '\n');
        assert(h@.subrange(0, i as int + 1).drop_last() =~= h@.subrange(0, i as int));
        let ghost after = split(h@.subrange(0, i as int + 1), '\n');
        if h[i] == '\n' {
            read_line(&mut meta, h, start, i);
            start = i + 1;
            assert(after == before.push(Seq::empty()));
            assert(after.drop_last() =~= before);
            assert(after.last() =~= h@.subrange(start as int, i as int + 1));
        } else {
            assert(after == before.update(before.len() - 1, before.last().push(h@[i as int])));
            assert(after.drop_last() =~= before.drop_last());
            assert(after.last() =~= h@.subrange(start as int, i as int + 1));
        }
        i = i + 1;
    }
    read_line(&mut meta, h, start, i);
    assert(h@.subrange(0, i as int) =~= h@);
    meta
}

/// The metadata of a content file: `None` when the text does not split into
/// at least three segments on `---`, which means the file is no post.
pub fn parse_metadata(content: &str) -> (r: Option<Metadata>)
    ensures
        r is None <==> !has_metadata(content@),
        r matches Some(m) ==> metadata_of(content@) == Some(m@),
{
    let v = chars_of(content);
    match find_delimiter(&v, 0) {
        None => None,
        Some(a) => match find_delimiter(&v, a + 3) {
            None => None,
            Some(b) => {
                let header = slice(&v, a + 3, b);
                Some(read_header_lines(&header))
            },
        },
    }
}

/// The body of a content file: the text after the second `---`, or empty
/// when there is no such marker.
pub fn body_of(content: &str) -> (r: String)
    ensures
        r@ == body_text(content@),
{
    let v = chars_of(content);
    match find_delimiter(&v, 0) {
        None => String::new(),
        Some(a) => match find_delimiter(&v, a + 3) {
            None => String::new(),
            Some(b) => {
                assert(b + 3 <= v@.len());
                let rest = slice(&v, b + 3, v.len());
                string_of(&rest)
            },
        },
    }
}

} // verus!
