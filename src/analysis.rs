//! Cross-document analysis: publish dates, the per-directory title index in
//! date order, the neighbour links between articles, and fingerprints.
use vstd::prelude::*;
use chrono::Datelike;
use sha2::Digest;
use crate::ast::{Attr, Cmd, Error, ErrorV, Location, TextElem, Value, ValueType, get_text, lookup, text_attr};
use crate::text::{chars_of, string_of, same_text};
use crate::convert::Context;
use vstd::utf8::encode_utf8;

verus! {

/// One parsed source file of the site.
pub struct Document {
    /// The site-relative path, segments separated by `/`.
    pub path: String,
    /// The root command.
    pub root: Cmd,
    /// Where the root command stands.
    pub loc: Location,
    /// The source text.
    pub src: String,
}

/// A calendar date.
#[derive(PartialEq, Eq, Structural, Clone, Copy, Debug)]
pub struct Date {
    pub year: i32,
    pub month: u32,
    pub day: u32,
}

/// The date given to documents that are not articles: 1970-01-01.
pub open spec fn epoch() -> Date {
    Date { year: 1970, month: 1, day: 1 }
}

pub open spec fn date_lt(a: Date, b: Date) -> bool {
    a.year < b.year || (a.year == b.year && (a.month < b.month || (a.month == b.month && a.day
        < b.day)))
}

/// What chrono's `NaiveDate::parse_from_str(s, fmt)` gives: year, month, day.
pub uninterp spec fn naive_date_parse(s: Seq<char>, fmt: Seq<char>) -> Option<(int, int, int)>;

/// Relies on chrono's `NaiveDate::parse_from_str`, which reads `s` by the
/// format `fmt` and fails where `s` is no valid date in that format.
#[verifier::external_body]
fn parse_naive_date(s: &str, fmt: &str) -> (r: Option<Date>)
    ensures
        r.is_some() == naive_date_parse(s@, fmt@).is_some(),
        r matches Some(d) ==> naive_date_parse(s@, fmt@) == Some(
            (d.year as int, d.month as int, d.day as int),
        ),
{
    chrono::NaiveDate::parse_from_str(s, fmt).ok().map(
        |d| Date { year: d.year(), month: d.month(), day: d.day() },
    )
}

pub open spec fn is_article(cmd: Cmd) -> bool {
    cmd.name@ == "article"@
}

/// The publish date of a document whose root is `cmd` at `loc`: read from
/// the `date` attribute (`YYYY-MM-DD`) of an article; the epoch otherwise.
pub open spec fn date_spec(cmd: Cmd, loc: Location) -> Result<Date, ErrorV> {
    if is_article(cmd) {
        match lookup(cmd.attrs@, "date"@) {
            None => Err(ErrorV::MissingAttribute { name: "date"@, loc }),
            Some(a) => match a.value {
                Value::Str(s) => match naive_date_parse(s@, "%Y-%m-%d"@) {
                    Some(t) => Ok(Date { year: t.0 as i32, month: t.1 as u32, day: t.2 as u32 }),
                    None => Err(ErrorV::ProcessError { loc: a.loc, desc: "invalid date format"@ }),
                },
                _ => Err(
                    ErrorV::InvalidAttributeType {
                        name: "date"@,
                        loc: a.loc,
                        expected: ValueType::Str,
                        found: a.value.kind(),
                    },
                ),
            },
        }
    } else {
        Ok(epoch())
    }
}

/// The title of the document whose root is `cmd` at `loc`.
pub fn extract_title<'a>(cmd: &'a Cmd, loc: &Location) -> (r: Result<&'a Vec<(TextElem, Location)>, Error>)
    ensures
        match r {
            Ok(t) => text_attr(cmd.attrs@, "title"@, *loc) == Ok::<Seq<(TextElem, Location)>, ErrorV>(t@),
            Err(e) => text_attr(cmd.attrs@, "title"@, *loc) == Err::<Seq<(TextElem, Location)>, ErrorV>(e@),
        },
{
    get_text(&cmd.attrs, "title", loc)
}

/// The publish date of the document whose root is `cmd` at `loc`.
pub fn extract_date(cmd: &Cmd, loc: &Location) -> (r: Result<Date, Error>)
    ensures
        match r {
            Ok(d) => date_spec(*cmd, *loc) == Ok::<Date, ErrorV>(d),
            Err(e) => date_spec(*cmd, *loc) == Err::<Date, ErrorV>(e@),
        },
{
    proof {
        reveal_strlit("article");
        reveal_strlit("date");
    }
    if !same_text(cmd.name.as_str(), "article") {
        return Ok(Date { year: 1970, month: 1, day: 1 });
    }
    match crate::ast::find_attr(&cmd.attrs, "date") {
        None => Err(Error::MissingAttribute { name: "date".to_owned(), loc: loc.copy() }),
        Some(a) => match &a.value {
            Value::Str(s) => match parse_naive_date(s.as_str(), "%Y-%m-%d") {
                Some(d) => Ok(d),
                None => Err(Error::ProcessError { loc: a.loc.copy(), desc: "invalid date format".to_owned() }),
            },
            _ => Err(
                Error::InvalidAttributeType {
                    name: "date".to_owned(),
                    loc: a.loc.copy(),
                    expected: ValueType::Str,
                    found: a.value.value_type(),
                },
            ),
        },
    }
}

/// Why a document cannot be analysed, if it cannot: its title is checked
/// before its date.
pub open spec fn doc_error(doc: Document) -> Option<ErrorV> {
    match text_attr(doc.root.attrs@, "title"@, doc.loc) {
        Err(e) => Some(e),
        Ok(_) => match date_spec(doc.root, doc.loc) {
            Err(e) => Some(e),
            Ok(_) => None,
        },
    }
}

/// The error of the first document, in order, that cannot be analysed.
pub open spec fn first_error(docs: Seq<Document>) -> Option<ErrorV>
    decreases docs.len(),
{
    if docs.len() == 0 {
        None
    } else if doc_error(docs[0]).is_some() {
        doc_error(docs[0])
    } else {
        first_error(docs.drop_first())
    }
}

/// The publish date of an analysable document.
pub open spec fn doc_date(doc: Document) -> Date {
    match date_spec(doc.root, doc.loc) {
        Ok(d) => d,
        Err(_) => epoch(),
    }
}

/// The directory that holds the path `p`: all before its last `/`.
pub open spec fn parent_dir(p: Seq<char>) -> Seq<char>
    decreases p.len(),
{
    if p.len() == 0 {
        p
    } else if p.last() == '/' {
        p.drop_last()
    } else {
        parent_dir(p.drop_last())
    }
}

pub open spec fn in_dir(docs: Seq<Document>, i: int, dir: Seq<char>) -> bool {
    parent_dir(docs[i].path@) == dir
}

/// Document `i` comes before document `j`: an earlier date, or the same
/// date and an earlier place in the input.
pub open spec fn key_lt(docs: Seq<Document>, i: int, j: int) -> bool {
    date_lt(doc_date(docs[i]), doc_date(docs[j])) || (doc_date(docs[i]) == doc_date(docs[j]) && i
        < j)
}

/// `order` lists each document of `dir` once, by date, ties in input order.
pub open spec fn is_date_order(docs: Seq<Document>, dir: Seq<char>, order: Seq<int>) -> bool {
    &&& forall|j: int| 0 <= j < order.len() ==> 0 <= #[trigger] order[j] < docs.len() && in_dir(docs, order[j], dir)
    &&& forall|j: int, k: int| 0 <= j < k < order.len() ==> key_lt(docs, #[trigger] order[j], #[trigger] order[k])
    &&& forall|i: int| 0 <= i < docs.len() && in_dir(docs, i, dir) ==> #[trigger] order.contains(i)
}

/// An entry of the title index: a document and its path.
pub struct Heading {
    pub path: String,
    /// The place of the document in the analysed sequence.
    pub doc: usize,
}

/// The documents of one directory, by date.
pub struct Group {
    pub dir: String,
    pub articles: Vec<Heading>,
}

pub open spec fn doc_order(arts: Seq<Heading>) -> Seq<int> {
    arts.map_values(|h: Heading| h.doc as int)
}

pub open spec fn has_group(groups: Seq<Group>, dir: Seq<char>) -> bool {
    exists|g: int| 0 <= g < groups.len() && #[trigger] groups[g].dir@ == dir
}

/// `groups` is the title index of `docs`: one group per directory, each
/// listing the documents of its directory by date.
pub open spec fn is_title_index(docs: Seq<Document>, groups: Seq<Group>) -> bool {
    &&& forall|g: int, h: int| 0 <= g < h < groups.len() ==> #[trigger] groups[g].dir@ != #[trigger] groups[h].dir@
    &&& forall|g: int| 0 <= g < groups.len() ==> {
        &&& #[trigger] groups[g].articles.len() > 0
        &&& is_date_order(docs, groups[g].dir@, doc_order(groups[g].articles@))
        &&& forall|j: int| 0 <= j < groups[g].articles.len() ==> (#[trigger] groups[g].articles@[j]).path@ == docs[groups[g].articles@[j].doc as int].path@
    }
    &&& forall|i: int| 0 <= i < docs.len() ==> has_group(groups, #[trigger] parent_dir(docs[i].path@))
}

fn parent_of(p: &Vec<char>) -> (r: Vec<char>)
    ensures
        r@ == parent_dir(p@),
{
    let mut i: usize = p.len();
    assert(p@.take(p.len() as int) =~= p@);
    while i > 0 && p[i - 1] != '/'
        invariant
            i <= p.len(),
            parent_dir(p@) == parent_dir(p@.take(i as int)),
        decreases i,
    {
        assert(p@.take(i as int).drop_last() =~= p@.take(i - 1));
        i = i - 1;
    }
    let mut out: Vec<char> = Vec::new();
    if i == 0 {
        assert(out@ =~= p@.take(0));
        return out;
    }
    let mut j: usize = 0;
    while j < i - 1
        invariant
            1 <= i <= p.len(),
            j <= i - 1,
            out@ == p@.take(j as int),
        decreases i - j,
    {
        out.push(p[j]);
        j = j + 1;
        assert(out@ =~= p@.take(j as int));
    }
    assert(p@.take(i as int).drop_last() =~= p@.take(i - 1));
    out
}

fn date_before(a: Date, b: Date) -> (r: bool)
    ensures
        r == date_lt(a, b),
{
    a.year < b.year || (a.year == b.year && (a.month < b.month || (a.month == b.month && a.day < b.day)))
}

fn key_before(dates: &Vec<Date>, i: usize, j: usize, docs: Ghost<Seq<Document>>) -> (r: bool)
    requires
        i < dates.len(),
        j < dates.len(),
        dates.len() == docs@.len(),
        forall|k: int| 0 <= k < dates.len() ==> dates@[k] == #[trigger] doc_date(docs@[k]),
    ensures
        r == key_lt(docs@, i as int, j as int),
{
    date_before(dates[i], dates[j]) || (dates[i] == dates[j] && i < j)
}

proof fn lemma_distinct_bounded(s: Seq<int>, n: int)
    requires
        s.no_duplicates(),
        0 <= n,
        forall|j: int| 0 <= j < s.len() ==> 0 <= #[trigger] s[j] < n,
    ensures
        s.len() <= n,
{
    s.unique_seq_to_set();
    vstd::set_lib::lemma_int_range(0, n);
    assert(s.to_set().subset_of(vstd::set_lib::set_int_range(0, n)));
    vstd::set_lib::lemma_len_subset(s.to_set(), vstd::set_lib::set_int_range(0, n));
}

/// The documents of `dir`, by date, ties in input order.
fn collect_group(parsed: &Vec<Document>, dates: &Vec<Date>, dirs: &Vec<String>, dir: &String) -> (r: Vec<Heading>)
    requires
        dates.len() == parsed.len(),
        dirs.len() == parsed.len(),
        forall|k: int| 0 <= k < dates.len() ==> dates@[k] == #[trigger] doc_date(parsed@[k]),
        forall|k: int| 0 <= k < dirs.len() ==> (#[trigger] dirs@[k])@ == parent_dir(parsed@[k].path@),
    ensures
        is_date_order(parsed@, dir@, doc_order(r@)),
        forall|j: int| 0 <= j < r.len() ==> (#[trigger] r@[j]).path@ == parsed@[r@[j].doc as int].path@,
        (exists|m: int| 0 <= m < parsed.len() && in_dir(parsed@, m, dir@)) ==> r.len() > 0,
{
    let ghost docs = parsed@;
    let n = parsed.len();
    let mut out: Vec<Heading> = Vec::new();
    let mut done = false;
    while !done
        invariant
            n == parsed.len(),
            dates.len() == n,
            dirs.len() == n,
            docs == parsed@,
            forall|k: int| 0 <= k < dates.len() ==> dates@[k] == #[trigger] doc_date(parsed@[k]),
            forall|k: int| 0 <= k < dirs.len() ==> (#[trigger] dirs@[k])@ == parent_dir(parsed@[k].path@),
            out.len() <= n,
            forall|j: int| 0 <= j < out.len() ==> (#[trigger] out@[j]).doc < n && in_dir(docs, out@[j].doc as int, dir@)
                && out@[j].path@ == docs[out@[j].doc as int].path@,
            forall|j: int, k: int| 0 <= j < k < out.len() ==> key_lt(docs, (#[trigger] out@[j]).doc as int, (#[trigger] out@[k]).doc as int),
            done ==> forall|m: int| 0 <= m < n && in_dir(docs, m, dir@) ==> #[trigger] doc_order(out@).contains(m),
            !done && out.len() > 0 ==> forall|m: int| 0 <= m < n && in_dir(docs, m, dir@) && (key_lt(docs, m, out@.last().doc as int) || m == out@.last().doc) ==> #[trigger] doc_order(out@).contains(m),
            done && out.len() == 0 ==> forall|m: int| 0 <= m < n ==> !in_dir(docs, m, dir@),
        decreases n - out.len() + (if done { 0int } else { 1int }),
    {
        let mut best: Option<usize> = None;
        let mut m: usize = 0;
        while m < n
            invariant
                n == parsed.len(),
                dates.len() == n,
                dirs.len() == n,
                docs == parsed@,
                m <= n,
                forall|k: int| 0 <= k < dates.len() ==> dates@[k] == #[trigger] doc_date(parsed@[k]),
                forall|k: int| 0 <= k < dirs.len() ==> (#[trigger] dirs@[k])@ == parent_dir(parsed@[k].path@),
                out.len() <= n,
                forall|j: int| 0 <= j < out.len() ==> (#[trigger] out@[j]).doc < n,
                best matches Some(b) ==> b < m && in_dir(docs, b as int, dir@) && (out.len() == 0 || key_lt(docs, out@.last().doc as int, b as int)),
                forall|c: int| 0 <= c < m && in_dir(docs, c, dir@) && (out.len() == 0 || key_lt(docs, out@.last().doc as int, c)) ==>
                    (best matches Some(b) && (key_lt(docs, b as int, c) || b == c)),
            decreases n - m,
        {
            if same_text(dirs[m].as_str(), dir.as_str()) && (out.len() == 0 || key_before(dates, out[out.len() - 1].doc, m, Ghost(docs))) {
                match best {
                    None => {
                        best = Some(m);
                    },
                    Some(b) => {
                        if key_before(dates, m, b, Ghost(docs)) {
                            best = Some(m);
                        }
                    },
                }
            }
            m = m + 1;
        }
        match best {
            None => {
                done = true;
                proof {
                    if out.len() > 0 {
                        assert forall|c: int| 0 <= c < n && in_dir(docs, c, dir@) implies #[trigger] doc_order(out@).contains(c) by {
                            let l = out@.last().doc as int;
                            if !(key_lt(docs, c, l) || c == l) {
                                assert(key_lt(docs, l, c));
                            }
                        }
                    }
                }
            },
            Some(b) => {
                let ghost prev = out@;
                out.push(Heading { path: parsed[b].path.clone(), doc: b });
                proof {
                    assert(doc_order(out@) =~= doc_order(prev).push(b as int));
                    assert forall|j: int, k: int| 0 <= j < k < out.len() implies key_lt(docs, (#[trigger] out@[j]).doc as int, (#[trigger] out@[k]).doc as int) by {
                        if k == out.len() - 1 && j < k - 1 {
                            assert(key_lt(docs, out@[j].doc as int, out@[k - 1].doc as int));
                        }
                    }
                    assert(doc_order(out@).no_duplicates()) by {
                        assert forall|j: int, k: int| 0 <= j < doc_order(out@).len() && 0 <= k < doc_order(out@).len() && j != k
                            implies doc_order(out@)[j] != doc_order(out@)[k] by {
                            if j < k {
                                assert(key_lt(docs, out@[j].doc as int, out@[k].doc as int));
                            } else {
                                assert(key_lt(docs, out@[k].doc as int, out@[j].doc as int));
                            }
                        }
                    }
                    lemma_distinct_bounded(doc_order(out@), n as int);
                    assert forall|c: int| 0 <= c < n && in_dir(docs, c, dir@) && (key_lt(docs, c, out@.last().doc as int) || c == out@.last().doc)
                        implies #[trigger] doc_order(out@).contains(c) by {
                        if c == b {
                            assert(doc_order(out@)[out.len() - 1] == c);
                        } else if prev.len() > 0 && (key_lt(docs, c, prev.last().doc as int) || c == prev.last().doc) {
                            assert(doc_order(prev).contains(c));
                            let w = choose|w: int| 0 <= w < doc_order(prev).len() && doc_order(prev)[w] == c;
                            assert(doc_order(out@)[w] == c);
                        } else {
                            assert(key_lt(docs, b as int, c) || b == c);
                        }
                    }
                }
            },
        }
    }
    proof {
        if exists|m: int| 0 <= m < parsed.len() && in_dir(parsed@, m, dir@) {
            let m = choose|m: int| 0 <= m < parsed.len() && in_dir(parsed@, m, dir@);
            assert(doc_order(out@).contains(m));
        }
    }
    out
}

/// The title index of `parsed`: its documents grouped by directory, each
/// group in date order. Fails with the error of the first document that has
/// no valid title or date.
pub fn calc_sorted_titles(parsed: &Vec<Document>) -> (r: Result<Vec<Group>, Error>)
    ensures
        match r {
            Err(e) => first_error(parsed@) == Some(e@),
            Ok(groups) => first_error(parsed@).is_none() && is_title_index(parsed@, groups@),
        },
{
    let n = parsed.len();
    let mut dates: Vec<Date> = Vec::new();
    let mut dirs: Vec<String> = Vec::new();
    let mut i: usize = 0;
    assert(parsed@.skip(0) =~= parsed@);
    while i < n
        invariant
            n == parsed.len(),
            i <= n,
            dates.len() == i,
            dirs.len() == i,
            first_error(parsed@) == first_error(parsed@.skip(i as int)),
            forall|k: int| 0 <= k < i ==> dates@[k] == #[trigger] doc_date(parsed@[k]),
            forall|k: int| 0 <= k < i ==> (#[trigger] dirs@[k])@ == parent_dir(parsed@[k].path@),
        decreases n - i,
    {
        let doc = &parsed[i];
        proof {
            assert(parsed@.skip(i as int).drop_first() =~= parsed@.skip(i + 1));
            assert(parsed@.skip(i as int)[0] == parsed@[i as int]);
        }
        match extract_title(&doc.root, &doc.loc) {
            Err(e) => {
                return Err(e);
            },
            Ok(_) => {},
        }
        let d = match extract_date(&doc.root, &doc.loc) {
            Err(e) => {
                return Err(e);
            },
            Ok(d) => d,
        };
        dates.push(d);
        dirs.push(string_of(&parent_of(&chars_of(doc.path.as_str()))));
        i = i + 1;
    }
    assert(parsed@.skip(n as int) =~= Seq::<Document>::empty());
    let mut groups: Vec<Group> = Vec::new();
    let mut i: usize = 0;
    while i < n
        invariant
            n == parsed.len(),
            i <= n,
            dates.len() == n,
            dirs.len() == n,
            forall|k: int| 0 <= k < n ==> dates@[k] == #[trigger] doc_date(parsed@[k]),
            forall|k: int| 0 <= k < n ==> (#[trigger] dirs@[k])@ == parent_dir(parsed@[k].path@),
            forall|g: int, h: int| 0 <= g < h < groups.len() ==> #[trigger] groups@[g].dir@ != #[trigger] groups@[h].dir@,
            forall|g: int| 0 <= g < groups.len() ==> {
                &&& #[trigger] groups@[g].articles.len() > 0
                &&& is_date_order(parsed@, groups@[g].dir@, doc_order(groups@[g].articles@))
                &&& forall|j: int| 0 <= j < groups@[g].articles.len() ==> (#[trigger] groups@[g].articles@[j]).path@ == parsed@[groups@[g].articles@[j].doc as int].path@
            },
            forall|k: int| 0 <= k < i ==> has_group(groups@, #[trigger] dirs@[k]@),
        decreases n - i,
    {
        let mut g: usize = 0;
        let mut found = false;
        while g < groups.len() && !found
            invariant
                g <= groups.len(),
                i < dirs.len(),
                found ==> has_group(groups@, dirs@[i as int]@),
                !found ==> forall|h: int| 0 <= h < g ==> #[trigger] groups@[h].dir@ != dirs@[i as int]@,
            decreases groups.len() - g,
        {
            if same_text(groups[g].dir.as_str(), dirs[i].as_str()) {
                found = true;
                assert(groups@[g as int].dir@ == dirs@[i as int]@);
            }
            g = g + 1;
        }
        if !found {
            let arts = collect_group(parsed, &dates, &dirs, &dirs[i]);
            let ghost prev = groups@;
            assert(in_dir(parsed@, i as int, dirs@[i as int]@));
            groups.push(Group { dir: dirs[i].clone(), articles: arts });
            proof {
                assert(groups@[prev.len() as int].dir@ == dirs@[i as int]@);
                assert forall|g1: int, h1: int| 0 <= g1 < h1 < groups.len() implies #[trigger] groups@[g1].dir@ != #[trigger] groups@[h1].dir@ by {
                    if h1 == prev.len() {
                        assert(prev[g1].dir@ != dirs@[i as int]@);
                    } else {
                        assert(prev[g1].dir@ != prev[h1].dir@);
                    }
                }
                assert forall|k: int| 0 <= k <= i implies has_group(groups@, #[trigger] dirs@[k]@) by {
                    if k < i {
                        let w = choose|w: int| 0 <= w < prev.len() && #[trigger] prev[w].dir@ == dirs@[k]@;
                        assert(groups@[w] == prev[w]);
                    }
                }
            }
        }
        i = i + 1;
    }
    proof {
        assert forall|k: int| 0 <= k < parsed.len() implies has_group(groups@, #[trigger] parent_dir(parsed@[k].path@)) by {
            assert(has_group(groups@, dirs@[k]@));
        }
    }
    Ok(groups)
}

/// The neighbours of each document in its group: `prevs[i]` is the entry
/// after document `i` (the one published next), `nexts[i]` the entry before.
pub open spec fn are_neighbours(
    groups: Seq<Group>,
    prevs: Seq<Option<Heading>>,
    nexts: Seq<Option<Heading>>,
) -> bool {
    forall|g: int, j: int| #![trigger groups[g].articles@[j]] 0 <= g < groups.len() && 0 <= j < groups[g].articles.len() ==> {
        let arts = groups[g].articles@;
        let i = arts[j].doc as int;
        &&& 0 <= i < prevs.len()
        &&& prevs[i] == (if j + 1 < arts.len() { Some(arts[j + 1]) } else { None })
        &&& 0 <= i < nexts.len()
        &&& nexts[i] == (if j > 0 { Some(arts[j - 1]) } else { None })
    }
}

fn copy_heading(h: &Heading) -> (r: Heading)
    ensures
        r == *h,
{
    Heading { path: h.path.clone(), doc: h.doc }
}

/// The title index of `parsed` and, for each document, its neighbours in
/// its group.
pub fn prevs_and_nexts(parsed: &Vec<Document>) -> (r: Result<
    (Vec<Option<Heading>>, Vec<Option<Heading>>, Vec<Group>),
    Error,
>)
    ensures
        match r {
            Err(e) => first_error(parsed@) == Some(e@),
            Ok((prevs, nexts, groups)) => {
                &&& first_error(parsed@).is_none()
                &&& is_title_index(parsed@, groups@)
                &&& prevs.len() == parsed.len()
                &&& nexts.len() == parsed.len()
                &&& are_neighbours(groups@, prevs@, nexts@)
            },
        },
{
    let groups = match calc_sorted_titles(parsed) {
        Err(e) => {
            return Err(e);
        },
        Ok(g) => g,
    };
    let ghost docs = parsed@;
    let n = parsed.len();
    let mut prevs: Vec<Option<Heading>> = Vec::new();
    let mut nexts: Vec<Option<Heading>> = Vec::new();
    let mut i: usize = 0;
    while i < n
        invariant
            n == parsed.len(),
            docs == parsed@,
            i <= n,
            prevs.len() == i,
            nexts.len() == i,
            is_title_index(docs, groups@),
            forall|g: int, j: int| 0 <= g < groups.len() && 0 <= j < groups@[g].articles.len()
                && (#[trigger] groups@[g].articles@[j]).doc < i ==> {
                let arts = groups@[g].articles@;
                let d = arts[j].doc as int;
                &&& prevs@[d] == (if j + 1 < arts.len() { Some(arts[j + 1]) } else { None })
                &&& nexts@[d] == (if j > 0 { Some(arts[j - 1]) } else { None })
            },
        decreases n - i,
    {
        let dir = string_of(&parent_of(&chars_of(parsed[i].path.as_str())));
        let ghost pd = parent_dir(docs[i as int].path@);
        assert(has_group(groups@, pd));
        let mut g: usize = 0;
        while g < groups.len() && !same_text(groups[g].dir.as_str(), dir.as_str())
            invariant
                g <= groups.len(),
                dir@ == pd,
                forall|h: int| 0 <= h < g ==> #[trigger] groups@[h].dir@ != pd,
            decreases groups.len() - g,
        {
            g = g + 1;
        }
        if g == groups.len() {
            proof {
                let w = choose|w: int| 0 <= w < groups.len() && #[trigger] groups@[w].dir@ == pd;
                assert(groups@[w].dir@ != pd);
            }
            return Err(Error::ProcessError { loc: parsed[i].loc.copy(), desc: dir });
        }
        let arts = &groups[g].articles;
        assert(groups@[g as int].articles.len() > 0);
        assert(doc_order(arts@).contains(i as int));
        let mut j: usize = 0;
        while j < arts.len() && arts[j].doc != i
            invariant
                j <= arts.len(),
                forall|h: int| 0 <= h < j ==> (#[trigger] arts@[h]).doc != i,
            decreases arts.len() - j,
        {
            j = j + 1;
        }
        if j == arts.len() {
            proof {
                let w = choose|w: int| 0 <= w < doc_order(arts@).len() && doc_order(arts@)[w] == i;
                assert(arts@[w].doc == i);
            }
            return Err(Error::ProcessError { loc: parsed[i].loc.copy(), desc: dir });
        }
        let p = if j + 1 < arts.len() { Some(copy_heading(&arts[j + 1])) } else { None };
        let x = if j > 0 { Some(copy_heading(&arts[j - 1])) } else { None };
        prevs.push(p);
        nexts.push(x);
        proof {
            assert forall|g2: int, j2: int| 0 <= g2 < groups.len() && 0 <= j2 < groups@[g2].articles.len()
                && (#[trigger] groups@[g2].articles@[j2]).doc < i + 1 implies {
                let arts2 = groups@[g2].articles@;
                let d = arts2[j2].doc as int;
                &&& prevs@[d] == (if j2 + 1 < arts2.len() { Some(arts2[j2 + 1]) } else { None })
                &&& nexts@[d] == (if j2 > 0 { Some(arts2[j2 - 1]) } else { None })
            } by {
                let arts2 = groups@[g2].articles@;
                if arts2[j2].doc == i {
                    assert(doc_order(arts2)[j2] == i);
                    assert(in_dir(docs, i as int, groups@[g2].dir@));
                    if g2 != g {
                        if g2 < g {
                            assert(groups@[g2].dir@ != groups@[g as int].dir@);
                        } else {
                            assert(groups@[g as int].dir@ != groups@[g2].dir@);
                        }
                    }
                    if j2 != j {
                        assert(doc_order(arts2)[j as int] == i);
                        if j2 < j {
                            assert(key_lt(docs, doc_order(arts2)[j2], doc_order(arts2)[j as int]));
                        } else {
                            assert(key_lt(docs, doc_order(arts2)[j as int], doc_order(arts2)[j2]));
                        }
                    }
                }
            }
        }
        i = i + 1;
    }
    proof {
        assert forall|g: int, j: int| 0 <= g < groups.len() && 0 <= j < groups@[g].articles.len() implies
            (#[trigger] groups@[g].articles@[j]).doc < n by {
            assert(doc_order(groups@[g].articles@)[j] == groups@[g].articles@[j].doc);
        }
    }
    Ok((prevs, nexts, groups))
}

/// What sha2's SHA-256 gives for `data`.
pub uninterp spec fn sha256_of(data: Seq<u8>) -> Seq<u8>;

/// Relies on sha2's `Sha256` digest: 32 bytes, a function of `data` alone.
#[verifier::external_body]
fn sha256_digest(data: &[u8]) -> (r: Vec<u8>)
    ensures
        r@ == sha256_of(data@),
        r@.len() == 32,
{
    sha2::Sha256::digest(data).to_vec()
}

/// The lower-case hexadecimal digit of `v`, for `v < 16`.
pub open spec fn hex_digit(v: int) -> char {
    seq!['0', '1', '2', '3', '4', '5', '6', '7', '8', '9', 'a', 'b', 'c', 'd', 'e', 'f'][v]
}

/// Two lower-case hexadecimal digits for each byte, high digit first.
pub open spec fn hex_of(b: Seq<u8>) -> Seq<char>
    decreases b.len(),
{
    if b.len() == 0 {
        Seq::<char>::empty()
    } else {
        hex_of(b.drop_last()) + seq![hex_digit(b.last() as int / 16), hex_digit(b.last() as int % 16)]
    }
}

proof fn lemma_hex_len(b: Seq<u8>)
    ensures
        hex_of(b).len() == 2 * b.len(),
    decreases b.len(),
{
    if b.len() > 0 {
        lemma_hex_len(b.drop_last());
    }
}

/// Relies on hex's `encode`: two lower-case digits for each byte, in order.
#[verifier::external_body]
fn hex_encode(b: &[u8]) -> (r: String)
    ensures
        r@ == hex_of(b@),
{
    hex::encode(b)
}

/// The fingerprint of a document: the SHA-256 digest of its source bytes
/// followed by its path bytes, in hexadecimal.
pub open spec fn fingerprint(path: Seq<char>, src: Seq<char>) -> Seq<char> {
    hex_of(sha256_of(encode_utf8(src) + encode_utf8(path)))
}

fn push_bytes(out: &mut Vec<u8>, b: &[u8])
    ensures
        final(out)@ == old(out)@ + b@,
{
    let mut i: usize = 0;
    while i < b.len()
        invariant
            i <= b.len(),
            out@ == old(out)@ + b@.take(i as int),
        decreases b.len() - i,
    {
        out.push(b[i]);
        i = i + 1;
        assert(out@ =~= old(out)@ + b@.take(i as int));
    }
    assert(b@.take(b.len() as int) =~= b@);
}

/// The fingerprint of the document at `path` with source `src`.
pub fn calc_sha256(path: &str, src: &str) -> (r: String)
    ensures
        r@ == fingerprint(path@, src@),
        r@.len() == 64,
{
    let mut data: Vec<u8> = Vec::new();
    push_bytes(&mut data, src.as_bytes());
    push_bytes(&mut data, path.as_bytes());
    assert(data@ =~= encode_utf8(src@) + encode_utf8(path@));
    let digest = sha256_digest(data.as_slice());
    proof {
        lemma_hex_len(digest@);
    }
    hex_encode(digest.as_slice())
}

/// Identical source and path give identical fingerprints.
pub proof fn law_fingerprint_deterministic(path1: Seq<char>, src1: Seq<char>, path2: Seq<char>, src2: Seq<char>)
    requires
        path1 == path2,
        src1 == src2,
    ensures
        fingerprint(path1, src1) == fingerprint(path2, src2),
{
}

/// What the analysis records of one document.
pub struct ArticleInfo {
    pub path: String,
    /// Where the root command stands.
    pub loc: Location,
    /// The entry published after this one in its directory.
    pub prev: Option<Heading>,
    /// The entry published before this one in its directory.
    pub next: Option<Heading>,
    /// The document's fingerprint.
    pub sha256: String,
}

/// The result of analysing the whole site.
pub struct Report {
    /// One record per document, in input order.
    pub per_article: Vec<ArticleInfo>,
    /// The title index.
    pub titles: Vec<Group>,
}

/// Analyses every document: the title index, each document's neighbours and
/// fingerprint. Fails with the error of the first document that has no
/// valid title or date.
pub fn analyze(parsed: &Vec<Document>) -> (r: Result<Report, Error>)
    ensures
        match r {
            Err(e) => first_error(parsed@) == Some(e@),
            Ok(rep) => {
                &&& first_error(parsed@).is_none()
                &&& is_title_index(parsed@, rep.titles@)
                &&& rep.per_article.len() == parsed.len()
                &&& are_neighbours(rep.titles@, rep.per_article@.map_values(|a: ArticleInfo| a.prev),
                    rep.per_article@.map_values(|a: ArticleInfo| a.next))
                &&& forall|i: int| 0 <= i < parsed.len() ==> {
                    let a = #[trigger] rep.per_article@[i];
                    &&& a.path@ == parsed@[i].path@
                    &&& a.loc == parsed@[i].loc
                    &&& a.sha256@ == fingerprint(parsed@[i].path@, parsed@[i].src@)
                }
            },
        },
{
    let (prevs, nexts, titles) = match prevs_and_nexts(parsed) {
        Err(e) => {
            return Err(e);
        },
        Ok(t) => t,
    };
    let n = parsed.len();
    let mut per_article: Vec<ArticleInfo> = Vec::new();
    let ghost prevs0 = prevs@;
    let ghost nexts0 = nexts@;
    let mut i: usize = 0;
    while i < n
        invariant
            n == parsed.len(),
            i <= n,
            prevs.len() == n,
            nexts.len() == n,
            per_article.len() == i,
            prevs@ == prevs0,
            nexts@ == nexts0,
            forall|k: int| 0 <= k < i ==> {
                let a = #[trigger] per_article@[k];
                &&& a.path@ == parsed@[k].path@
                &&& a.loc == parsed@[k].loc
                &&& a.sha256@ == fingerprint(parsed@[k].path@, parsed@[k].src@)
                &&& a.prev == prevs0[k]
                &&& a.next == nexts0[k]
            },
        decreases n - i,
    {
        let doc = &parsed[i];
        let prev = match &prevs[i] {
            Some(h) => Some(copy_heading(h)),
            None => None,
        };
        let next = match &nexts[i] {
            Some(h) => Some(copy_heading(h)),
            None => None,
        };
        per_article.push(ArticleInfo {
            path: doc.path.clone(),
            loc: doc.loc.copy(),
            prev,
            next,
            sha256: calc_sha256(doc.path.as_str(), doc.src.as_str()),
        });
        i = i + 1;
    }
    assert(per_article@.map_values(|a: ArticleInfo| a.prev) =~= prevs0);
    assert(per_article@.map_values(|a: ArticleInfo| a.next) =~= nexts0);
    Ok(Report { per_article, titles })
}

/// The document reached from document `d` by following the link to the
/// entry published after it `k` times.
pub open spec fn follow(prevs: Seq<Option<Heading>>, d: int, k: nat) -> Option<int>
    decreases k,
{
    if k == 0 {
        Some(d)
    } else {
        match follow(prevs, d, (k - 1) as nat) {
            Some(x) => if 0 <= x < prevs.len() {
                match prevs[x] {
                    Some(h) => Some(h.doc as int),
                    None => None,
                }
            } else {
                None
            },
            None => None,
        }
    }
}

/// Within a directory, the links between articles form one chain in date
/// order: no article links to itself, the earliest has no link to an
/// earlier one, the latest none to a later one, and following the links to
/// later articles from the earliest visits every article of the directory
/// once, in date order, and then stops.
pub proof fn law_neighbour_chain(
    docs: Seq<Document>,
    groups: Seq<Group>,
    prevs: Seq<Option<Heading>>,
    nexts: Seq<Option<Heading>>,
    g: int,
)
    requires
        is_title_index(docs, groups),
        are_neighbours(groups, prevs, nexts),
        0 <= g < groups.len(),
    ensures
        ({
            let arts = groups[g].articles@;
            &&& nexts[arts[0].doc as int].is_none()
            &&& prevs[arts.last().doc as int].is_none()
            &&& forall|j: int, k: int| 0 <= j < k < arts.len() ==> (#[trigger] arts[j]).doc != (#[trigger] arts[k]).doc
            &&& forall|j: int| 0 <= j < arts.len() ==> match #[trigger] prevs[arts[j].doc as int] {
                Some(h) => h.doc != arts[j].doc,
                None => true,
            }
            &&& forall|j: int| 0 <= j < arts.len() ==> match #[trigger] nexts[arts[j].doc as int] {
                Some(h) => h.doc != arts[j].doc,
                None => true,
            }
            &&& forall|k: int| 0 <= k < arts.len() ==> #[trigger] follow(prevs, arts[0].doc as int, k as nat) == Some(arts[k].doc as int)
            &&& follow(prevs, arts[0].doc as int, arts.len()) is None
        }),
{
    let arts = groups[g].articles@;
    assert(arts.len() > 0);
    assert(is_date_order(docs, groups[g].dir@, doc_order(arts)));
    assert forall|j: int, k: int| 0 <= j < k < arts.len() implies (#[trigger] arts[j]).doc != (#[trigger] arts[k]).doc by {
        assert(key_lt(docs, doc_order(arts)[j], doc_order(arts)[k]));
    }
    assert(groups[g].articles@[0] == arts[0]);
    assert(groups[g].articles@[arts.len() - 1] == arts.last());
    assert forall|j: int| 0 <= j < arts.len() implies match #[trigger] prevs[arts[j].doc as int] {
        Some(h) => h.doc != arts[j].doc,
        None => true,
    } by {
        assert(groups[g].articles@[j] == arts[j]);
        if j + 1 < arts.len() {
            assert(arts[j].doc != arts[j + 1].doc);
        }
    }
    assert forall|j: int| 0 <= j < arts.len() implies match #[trigger] nexts[arts[j].doc as int] {
        Some(h) => h.doc != arts[j].doc,
        None => true,
    } by {
        assert(groups[g].articles@[j] == arts[j]);
        if j > 0 {
            assert(arts[j - 1].doc != arts[j].doc);
        }
    }
    lemma_follow(docs, groups, prevs, nexts, g, arts.len() as int);
}

proof fn lemma_follow(
    docs: Seq<Document>,
    groups: Seq<Group>,
    prevs: Seq<Option<Heading>>,
    nexts: Seq<Option<Heading>>,
    g: int,
    n: int,
)
    requires
        is_title_index(docs, groups),
        are_neighbours(groups, prevs, nexts),
        0 <= g < groups.len(),
        0 <= n <= groups[g].articles.len(),
    ensures
        forall|k: int| 0 <= k < n ==> #[trigger] follow(prevs, groups[g].articles@[0].doc as int, k as nat) == Some(
            groups[g].articles@[k].doc as int,
        ),
        n == groups[g].articles.len() ==> follow(prevs, groups[g].articles@[0].doc as int, n as nat) is None,
    decreases n,
{
    let arts = groups[g].articles@;
    assert(arts.len() > 0);
    if n > 0 {
        lemma_follow(docs, groups, prevs, nexts, g, n - 1);
        let d0 = arts[0].doc as int;
        if n >= 2 {
            let x = arts[n - 2].doc as int;
            assert(groups[g].articles@[n - 2] == arts[n - 2]);
            assert(follow(prevs, d0, (n - 1) as nat) == Some(arts[n - 1].doc as int)) by {
                assert(follow(prevs, d0, (n - 2) as nat) == Some(x));
                assert(prevs[x] == Some(arts[n - 1]));
            }
        }
        if n == arts.len() {
            let y = arts[n - 1].doc as int;
            assert(groups[g].articles@[n - 1] == arts[n - 1]);
            assert(prevs[y].is_none());
            assert(follow(prevs, d0, (n - 1) as nat) == Some(y));
        }
    }
}

impl Report {
    /// The context in which the document at `p` is rendered, if the
    /// analysis holds a record of it: its first record.
    pub fn get_context<'a>(&'a self, docs: &'a Vec<Document>, p: &'a String) -> (r: Option<Context<'a>>)
        ensures
            match r {
                None => forall|i: int| 0 <= i < self.per_article.len() ==> (#[trigger] self.per_article@[i]).path@ != p@,
                Some(ctx) => exists|i: int| {
                    &&& 0 <= i < self.per_article.len()
                    &&& (#[trigger] self.per_article@[i]).path@ == p@
                    &&& forall|j: int| 0 <= j < i ==> (#[trigger] self.per_article@[j]).path@ != p@
                    &&& ctx.location == self.per_article@[i].loc
                    &&& *ctx.prev == self.per_article@[i].prev
                    &&& *ctx.next == self.per_article@[i].next
                    &&& ctx.sha256@ == self.per_article@[i].sha256@
                    &&& ctx.level == 1
                    &&& ctx.hops == docs.len()
                    &&& *ctx.titles == self.titles
                    &&& *ctx.docs == *docs
                    &&& *ctx.path == *p
                },
            },
    {
        let mut i: usize = 0;
        while i < self.per_article.len()
            invariant
                i <= self.per_article.len(),
                forall|j: int| 0 <= j < i ==> (#[trigger] self.per_article@[j]).path@ != p@,
            decreases self.per_article.len() - i,
        {
            let a = &self.per_article[i];
            if same_text(a.path.as_str(), p.as_str()) {
                return Some(
                    Context {
                        location: a.loc.copy(),
                        level: 1,
                        hops: docs.len(),
                        prev: &a.prev,
                        next: &a.next,
                        titles: &self.titles,
                        docs,
                        sha256: &a.sha256,
                        path: p,
                    },
                );
            }
            i = i + 1;
        }
        None
    }
}

} // verus!
