//! The post listing: the Markdown files of the content directory, each
//! assembled into a post where it has a metadata block, newest first.
//!
//! The order is by calendar day, not by the displayed date text: the text
//! "April 1, 2024" would sort before "January 1, 2024". Posts of the same
//! day keep the order that a stable ascending sort followed by a reversal
//! gives them: a file read later comes first.
use vstd::prelude::*;
use crate::date::{earlier, is_earlier, parsed_date, Date};
use crate::metadata::{has_metadata, metadata_of, parse_metadata};
use crate::post::{assembled, build_post, resolve_date, slug_text, Post, PostView};
use crate::text::chars_of;

verus! {

/// A directory entry as read from the file system: its name, its text
/// (`None` where it could not be read) and its local modification day
/// (`None` where the file system gave none).
pub struct SourceFile {
    pub name: String,
    pub text: Option<String>,
    pub modified: Option<Date>,
}

pub struct SourceFileView {
    pub name: Seq<char>,
    pub text: Option<Seq<char>>,
    pub modified: Option<Date>,
}

impl View for SourceFile {
    type V = SourceFileView;

    open spec fn view(&self) -> SourceFileView {
        SourceFileView {
            name: self.name@,
            text: match self.text {
                Some(t) => Some(t@),
                None => None,
            },
            modified: self.modified,
        }
    }
}

pub open spec fn file_views(fs: Seq<SourceFile>) -> Seq<SourceFileView> {
    fs.map_values(|f: SourceFile| f@)
}

pub open spec fn post_views(ps: Seq<Post>) -> Seq<PostView> {
    ps.map_values(|p: Post| p@)
}

/// A name with the extension `md`: it ends in `.md` after at least one
/// other character, so that `.md` alone, a hidden file's name, has none.
pub open spec fn is_markdown_name(n: Seq<char>) -> bool {
    n.len() >= 4 && n[n.len() - 3] == '.' && n[n.len() - 2] == 'm' && n[n.len() - 1] == 'd'
}

pub fn is_markdown_file(name: &str) -> (r: bool)
    ensures
        r == is_markdown_name(name@),
{
    let v = chars_of(name);
    let n = v.len();
    n >= 4 && v[n - 3] == '.' && v[n - 2] == 'm' && v[n - 1] == 'd'
}

/// The dated post of one directory entry, or `None` where the entry is no
/// post: not Markdown, unreadable, or without a metadata block.
pub open spec fn entry_of(f: SourceFileView, now: Date) -> Option<(Date, PostView)> {
    if !is_markdown_name(f.name) {
        None
    } else {
        match f.text {
            None => None,
            Some(t) => assembled(t, f.name, f.modified, now),
        }
    }
}

/// The dated posts of the entries, in directory order.
pub open spec fn entries(fs: Seq<SourceFileView>, now: Date) -> Seq<(Date, PostView)>
    decreases fs.len(),
{
    if fs.len() == 0 {
        Seq::empty()
    } else {
        match entry_of(fs.last(), now) {
            Some(e) => entries(fs.drop_last(), now).push(e),
            None => entries(fs.drop_last(), now),
        }
    }
}

pub open spec fn days(s: Seq<(Date, PostView)>) -> Seq<Date> {
    s.map_values(|e: (Date, PostView)| e.0)
}

/// Where a post of day `d` goes among posts ordered newest first: before the
/// first one that is not later than `d`.
pub open spec fn insert_pos(d: Date, ks: Seq<Date>) -> int
    decreases ks.len(),
{
    if ks.len() == 0 || !earlier(d, ks[0]) {
        0
    } else {
        1 + insert_pos(d, ks.drop_first())
    }
}

/// The dated posts ordered newest first, each inserted in turn.
pub open spec fn ordered(s: Seq<(Date, PostView)>) -> Seq<(Date, PostView)>
    decreases s.len(),
{
    if s.len() == 0 {
        s
    } else {
        let r = ordered(s.drop_last());
        r.insert(insert_pos(s.last().0, days(r)), s.last())
    }
}

/// The posts that the content directory yields, newest first.
pub open spec fn listing(fs: Seq<SourceFileView>, now: Date) -> Seq<PostView> {
    ordered(entries(fs, now)).map_values(|e: (Date, PostView)| e.1)
}

pub open spec fn dates_valid(fs: Seq<SourceFileView>) -> bool {
    forall|i: int| 0 <= i < fs.len() ==> (#[trigger] fs[i].modified matches Some(m) ==> m.valid())
}

pub proof fn lemma_insert_pos_bounds(d: Date, ks: Seq<Date>)
    ensures
        0 <= insert_pos(d, ks) <= ks.len(),
    decreases ks.len(),
{
    if ks.len() > 0 && earlier(d, ks[0]) {
        lemma_insert_pos_bounds(d, ks.drop_first());
    }
}

pub proof fn lemma_ordered_len(s: Seq<(Date, PostView)>)
    ensures
        ordered(s).len() == s.len(),
    decreases s.len(),
{
    if s.len() > 0 {
        lemma_ordered_len(s.drop_last());
        let r = ordered(s.drop_last());
        lemma_insert_pos_bounds(s.last().0, days(r));
    }
}

/// Index at which a post of day `d` goes into `keys`.
fn position(keys: &Vec<Date>, d: Date) -> (j: usize)
    ensures
        j as int == insert_pos(d, keys@),
        j <= keys@.len(),
{
    let mut k: usize = 0;
    assert(keys@.subrange(0, keys@.len() as int) =~= keys@);
    while k < keys.len() && is_earlier(d, keys[k])
        invariant
            k <= keys@.len(),
            insert_pos(d, keys@) == k + insert_pos(d, keys@.subrange(k as int, keys@.len() as int)),
        decreases keys@.len() - k,
    {
        assert(keys@.subrange(k as int, keys@.len() as int).drop_first() =~= keys@.subrange(
            k as int + 1,
            keys@.len() as int,
        ));
        k = k + 1;
    }
    k
}

/// The posts of the entries read from the content directory, newest first.
/// `now` is the day used for posts that have neither a date field that
/// parses nor a modification day.
pub fn build_posts(files: &Vec<SourceFile>, now: Date) -> (r: Vec<Post>)
    requires
        now.valid(),
        dates_valid(file_views(files@)),
    ensures
        post_views(r@) == listing(file_views(files@), now),
{
    let ghost fs = file_views(files@);
    let mut keys: Vec<Date> = Vec::new();
    let mut posts: Vec<Post> = Vec::new();
    let mut i: usize = 0;
    while i < files.len()
        invariant
            fs == file_views(files@),
            now.valid(),
            dates_valid(fs),
            i <= files@.len(),
            keys@.len() == posts@.len() == ordered(entries(fs.subrange(0, i as int), now)).len(),
            keys@ == days(ordered(entries(fs.subrange(0, i as int), now))),
            post_views(posts@) == ordered(entries(fs.subrange(0, i as int), now)).map_values(
                |e: (Date, PostView)| e.1,
            ),
        decreases files@.len() - i,
    {
        let ghost before = ordered(entries(fs.subrange(0, i as int), now));
        assert(fs.subrange(0, i as int + 1).drop_last() =~= fs.subrange(0, i as int));
        assert(fs.subrange(0, i as int + 1).last() == files@[i as int]@);
        let f = &files[i];
        if is_markdown_file(f.name.as_str()) {
            match &f.text {
                Some(t) => match parse_metadata(t.as_str()) {
                    Some(meta) => {
                        assert(fs[i as int].modified == f.modified);
                        let d = resolve_date(meta.date.as_str(), f.modified, now);
                        let p = build_post(t.as_str(), f.name.as_str(), &meta, d);
                        let j = position(&keys, d);
                        let ghost e = (d, p@);
                        let ghost old_views = post_views(posts@);
                        let ghost pv = p@;
                        assert(entry_of(fs[i as int], now) == Some(e));
                        assert(entries(fs.subrange(0, i as int + 1), now) == entries(
                            fs.subrange(0, i as int),
                            now,
                        ).push(e));
                        assert(entries(fs.subrange(0, i as int), now).push(e).drop_last()
                            =~= entries(fs.subrange(0, i as int), now));
                        assert(ordered(entries(fs.subrange(0, i as int + 1), now)) == before.insert(
                            insert_pos(d, days(before)),
                            e,
                        ));
                        keys.insert(j, d);
                        posts.insert(j, p);
                        proof {
                            lemma_insert_pos_bounds(d, days(before));
                        }
                        assert(keys@ =~= days(before.insert(j as int, e)));
                        assert(post_views(posts@) =~= old_views.insert(j as int, pv));
                        assert(before.insert(j as int, e).map_values(|e: (Date, PostView)| e.1)
                            =~= before.map_values(|e: (Date, PostView)| e.1).insert(j as int, pv));
                    },
                    None => {
                        assert(entry_of(fs[i as int], now) is None);
                    },
                },
                None => {
                    assert(entry_of(fs[i as int], now) is None);
                },
            }
        } else {
            assert(entry_of(fs[i as int], now) is None);
        }
        i = i + 1;
    }
    assert(fs.subrange(0, i as int) =~= fs);
    posts
}


/// Ordering moves posts around and neither adds nor drops one.
pub proof fn lemma_ordered_permutes(s: Seq<(Date, PostView)>)
    ensures
        ordered(s).to_multiset() == s.to_multiset(),
        ordered(s).len() == s.len(),
    decreases s.len(),
{
    broadcast use vstd::seq_lib::group_to_multiset_ensures;

    lemma_ordered_len(s);
    if s.len() > 0 {
        lemma_ordered_permutes(s.drop_last());
        let r = ordered(s.drop_last());
        lemma_insert_pos_bounds(s.last().0, days(r));
        vstd::seq_lib::to_multiset_insert(r, insert_pos(s.last().0, days(r)), s.last());
        assert(s =~= s.drop_last().push(s.last()));
        vstd::seq_lib::to_multiset_build(s.drop_last(), s.last());
    }
}

/// The posts that `insert_pos` passes over are all later than `d`, and the
/// one it stops at is not.
proof fn lemma_insert_pos_stops(d: Date, ks: Seq<Date>)
    ensures
        forall|k: int| 0 <= k < insert_pos(d, ks) ==> earlier(d, #[trigger] ks[k]),
        insert_pos(d, ks) < ks.len() ==> !earlier(d, ks[insert_pos(d, ks)]),
    decreases ks.len(),
{
    lemma_insert_pos_bounds(d, ks);
    if ks.len() > 0 && earlier(d, ks[0]) {
        lemma_insert_pos_stops(d, ks.drop_first());
        let q = insert_pos(d, ks.drop_first());
        lemma_insert_pos_bounds(d, ks.drop_first());
        if q + 1 < ks.len() {
            assert(ks[q + 1] == ks.drop_first()[q]);
        }
        assert forall|k: int| 0 <= k < insert_pos(d, ks) implies earlier(d, #[trigger] ks[k]) by {
            if k > 0 {
                assert(ks[k] == ks.drop_first()[k - 1]);
            }
        }
    }
}

pub open spec fn newest_first(s: Seq<(Date, PostView)>) -> bool {
    forall|i: int, j: int| 0 <= i < j < s.len() ==> !earlier(#[trigger] s[i].0, #[trigger] s[j].0)
}

/// Ordered posts go from the latest day to the earliest.
pub proof fn lemma_ordered_newest_first(s: Seq<(Date, PostView)>)
    ensures
        newest_first(ordered(s)),
    decreases s.len(),
{
    if s.len() > 0 {
        lemma_ordered_newest_first(s.drop_last());
        let r = ordered(s.drop_last());
        let d = s.last().0;
        let p = insert_pos(d, days(r));
        lemma_insert_pos_bounds(d, days(r));
        lemma_insert_pos_stops(d, days(r));
        let o = r.insert(p, s.last());
        assert forall|i: int, j: int| 0 <= i < j < o.len() implies !earlier(
            #[trigger] o[i].0,
            #[trigger] o[j].0,
        ) by {
            if j < p {
                assert(o[i] == r[i] && o[j] == r[j]);
            } else if j == p {
                assert(o[i] == r[i]);
                assert(days(r)[i] == r[i].0);
            } else if i == p {
                assert(o[j] == r[j - 1]);
                assert(days(r)[p] == r[p].0);
                if j - 1 > p {
                    assert(!earlier(r[p].0, r[j - 1].0));
                }
            } else if i < p {
                assert(o[i] == r[i] && o[j] == r[j - 1]);
            } else {
                assert(o[i] == r[i - 1] && o[j] == r[j - 1]);
            }
        }
    }
}

/// An entry that yields no post leaves the entries of the others as they are.
proof fn lemma_entries_skip(fs: Seq<SourceFileView>, i: int, now: Date)
    requires
        0 <= i < fs.len(),
        entry_of(fs[i], now) is None,
    ensures
        entries(fs, now) == entries(fs.remove(i), now),
    decreases fs.len(),
{
    if i == fs.len() - 1 {
        assert(fs.remove(i) =~= fs.drop_last());
    } else {
        lemma_entries_skip(fs.drop_last(), i, now);
        assert(fs.remove(i).drop_last() =~= fs.drop_last().remove(i));
        assert(fs.remove(i).last() == fs.last());
    }
}

/// A file whose text does not split into three segments on `---` adds no
/// post: the listing is the same as without that file.
pub proof fn lemma_malformed_file_excluded(fs: Seq<SourceFileView>, i: int, now: Date)
    requires
        0 <= i < fs.len(),
        fs[i].text matches Some(t) && !has_metadata(t),
    ensures
        listing(fs, now) == listing(fs.remove(i), now),
{
    lemma_entries_skip(fs, i, now);
}

/// Where no entry yields a post, as in an empty or unreadable directory,
/// the listing is empty.
pub proof fn lemma_no_posts(fs: Seq<SourceFileView>, now: Date)
    requires
        forall|i: int| 0 <= i < fs.len() ==> (#[trigger] entry_of(fs[i], now)) is None,
    ensures
        listing(fs, now) == Seq::<PostView>::empty(),
    decreases fs.len(),
{
    if fs.len() > 0 {
        assert forall|i: int| 0 <= i < fs.len() - 1 implies (#[trigger] entry_of(
            fs.drop_last()[i],
            now,
        )) is None by {
            assert(fs.drop_last()[i] == fs[i]);
        }
        lemma_no_posts(fs.drop_last(), now);
        assert(entry_of(fs[fs.len() - 1], now) is None);
    }
    assert(listing(fs, now) =~= Seq::<PostView>::empty());
}

/// Each dated post of the entries carries the slug of its title.
proof fn lemma_entries_slugs(fs: Seq<SourceFileView>, now: Date)
    ensures
        forall|k: int|
            0 <= k < entries(fs, now).len() ==> (#[trigger] entries(fs, now)[k]).1.slug
                == slug_text(entries(fs, now)[k].1.title),
    decreases fs.len(),
{
    if fs.len() > 0 {
        lemma_entries_slugs(fs.drop_last(), now);
        let prev = entries(fs.drop_last(), now);
        match entry_of(fs.last(), now) {
            Some(e) => {
                assert(e.1.slug == slug_text(e.1.title));
                assert forall|k: int| 0 <= k < prev.push(e).len() implies (#[trigger] prev.push(
                    e,
                )[k]).1.slug == slug_text(prev.push(e)[k].1.title) by {
                    if k < prev.len() {
                        assert(prev.push(e)[k] == prev[k]);
                    }
                }
            },
            None => {},
        }
    }
}

/// Every listed post's slug is its title lowercased with each space replaced
/// by a hyphen.
pub proof fn lemma_slug_of_title(fs: Seq<SourceFileView>, now: Date)
    ensures
        forall|k: int|
            0 <= k < listing(fs, now).len() ==> (#[trigger] listing(fs, now)[k]).slug == slug_text(
                listing(fs, now)[k].title,
            ),
{
    broadcast use vstd::seq_lib::group_to_multiset_ensures;

    let s = entries(fs, now);
    lemma_ordered_permutes(s);
    lemma_entries_slugs(fs, now);
    assert forall|k: int| 0 <= k < listing(fs, now).len() implies (#[trigger] listing(
        fs,
        now,
    )[k]).slug == slug_text(listing(fs, now)[k].title) by {
        let x = ordered(s)[k];
        assert(ordered(s).contains(x));
        assert(ordered(s).to_multiset().count(x) > 0);
        assert(s.contains(x));
    }
}

/// Two listed posts with the same title have the same slug.
pub proof fn lemma_same_title_same_slug(fs: Seq<SourceFileView>, now: Date, i: int, j: int)
    requires
        0 <= i < listing(fs, now).len(),
        0 <= j < listing(fs, now).len(),
        listing(fs, now)[i].title == listing(fs, now)[j].title,
    ensures
        listing(fs, now)[i].slug == listing(fs, now)[j].slug,
{
    lemma_slug_of_title(fs, now);
}

/// Every post of the file is dated without looking at today: by a date
/// field that parses, or else by a modification day.
pub open spec fn dated_without_today(f: SourceFileView) -> bool {
    f.text matches Some(t) && metadata_of(t) matches Some(m) ==> (
    parsed_date(m.date) is Some || f.modified is Some)
}

/// Listing the same directory twice gives the same posts, whatever today is,
/// as long as no post falls back to today's date.
pub proof fn lemma_listing_repeatable(fs: Seq<SourceFileView>, now1: Date, now2: Date)
    requires
        forall|i: int| 0 <= i < fs.len() ==> dated_without_today(#[trigger] fs[i]),
    ensures
        listing(fs, now1) == listing(fs, now2),
    decreases fs.len(),
{
    if fs.len() > 0 {
        assert forall|i: int| 0 <= i < fs.len() - 1 implies dated_without_today(
            #[trigger] fs.drop_last()[i],
        ) by {
            assert(fs.drop_last()[i] == fs[i]);
        }
        lemma_listing_repeatable(fs.drop_last(), now1, now2);
        lemma_entries_repeatable(fs, now1, now2);
    }
}

proof fn lemma_entries_repeatable(fs: Seq<SourceFileView>, now1: Date, now2: Date)
    requires
        forall|i: int| 0 <= i < fs.len() ==> dated_without_today(#[trigger] fs[i]),
    ensures
        entries(fs, now1) == entries(fs, now2),
    decreases fs.len(),
{
    if fs.len() > 0 {
        assert forall|i: int| 0 <= i < fs.len() - 1 implies dated_without_today(
            #[trigger] fs.drop_last()[i],
        ) by {
            assert(fs.drop_last()[i] == fs[i]);
        }
        lemma_entries_repeatable(fs.drop_last(), now1, now2);
        assert(dated_without_today(fs[fs.len() - 1]));
        assert(entry_of(fs.last(), now1) == entry_of(fs.last(), now2));
    }
}


/// A file that yields a post contributes it to the entries.
proof fn lemma_entries_contain(fs: Seq<SourceFileView>, i: int, now: Date)
    requires
        0 <= i < fs.len(),
        entry_of(fs[i], now) is Some,
    ensures
        entries(fs, now).contains(entry_of(fs[i], now)->0),
    decreases fs.len(),
{
    let e = entry_of(fs[i], now)->0;
    let prev = entries(fs.drop_last(), now);
    if i == fs.len() - 1 {
        assert(entries(fs, now) == prev.push(e));
        assert(prev.push(e)[prev.len() as int] == e);
    } else {
        assert(fs.drop_last()[i] == fs[i]);
        lemma_entries_contain(fs.drop_last(), i, now);
        let k = choose|k: int| 0 <= k < prev.len() && prev[k] == e;
        match entry_of(fs.last(), now) {
            Some(x) => {
                assert(prev.push(x)[k] == e);
            },
            None => {},
        }
    }
}

/// Every file that yields a post has it listed: none is dropped, not even
/// when its title, and so its slug, is another post's.
pub proof fn lemma_post_listed(fs: Seq<SourceFileView>, i: int, now: Date)
    requires
        0 <= i < fs.len(),
        entry_of(fs[i], now) is Some,
    ensures
        listing(fs, now).contains(entry_of(fs[i], now).unwrap().1),
{
    broadcast use vstd::seq_lib::group_to_multiset_ensures;

    let s = entries(fs, now);
    let e = entry_of(fs[i], now)->0;
    lemma_entries_contain(fs, i, now);
    lemma_ordered_permutes(s);
    assert(s.to_multiset().count(e) > 0);
    assert(ordered(s).contains(e));
    let k = choose|k: int| 0 <= k < ordered(s).len() && ordered(s)[k] == e;
    assert(listing(fs, now)[k] == e.1);
}

/// Two files with different names that both yield posts with the same title
/// are both listed, and their posts share a slug.
pub proof fn lemma_same_title_both_listed(fs: Seq<SourceFileView>, i: int, j: int, now: Date)
    requires
        0 <= i < fs.len(),
        0 <= j < fs.len(),
        fs[i].name != fs[j].name,
        entry_of(fs[i], now) is Some,
        entry_of(fs[j], now) is Some,
        entry_of(fs[i], now).unwrap().1.title == entry_of(fs[j], now).unwrap().1.title,
    ensures
        exists|a: int, b: int|
            0 <= a < listing(fs, now).len() && 0 <= b < listing(fs, now).len() && a != b
                && (#[trigger] listing(fs, now)[a]).filename == fs[i].name && (
            #[trigger] listing(fs, now)[b]).filename == fs[j].name && listing(fs, now)[a].slug
                == listing(fs, now)[b].slug,
{
    let l = listing(fs, now);
    lemma_post_listed(fs, i, now);
    lemma_post_listed(fs, j, now);
    lemma_slug_of_title(fs, now);
    let a = choose|a: int| 0 <= a < l.len() && l[a] == entry_of(fs[i], now).unwrap().1;
    let b = choose|b: int| 0 <= b < l.len() && l[b] == entry_of(fs[j], now).unwrap().1;
    assert(l[a].filename == fs[i].name);
    assert(l[b].filename == fs[j].name);
    assert(l[a].slug == l[b].slug);
}


proof fn lemma_entries_len_ignores_today(fs: Seq<SourceFileView>, now1: Date, now2: Date)
    ensures
        entries(fs, now1).len() == entries(fs, now2).len(),
    decreases fs.len(),
{
    if fs.len() > 0 {
        lemma_entries_len_ignores_today(fs.drop_last(), now1, now2);
        assert((entry_of(fs.last(), now1) is Some) == (entry_of(fs.last(), now2) is Some));
    }
}

/// Listing the same directory twice gives as many posts, whatever today is,
/// also where some post falls back to today's date.
pub proof fn lemma_listing_len_ignores_today(fs: Seq<SourceFileView>, now1: Date, now2: Date)
    ensures
        listing(fs, now1).len() == listing(fs, now2).len(),
{
    lemma_entries_len_ignores_today(fs, now1, now2);
    lemma_ordered_len(entries(fs, now1));
    lemma_ordered_len(entries(fs, now2));
}

} // verus!
