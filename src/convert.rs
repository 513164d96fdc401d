//! The tree compiler: renders a document's command tree into a markup tree.
//!
//! Rendering is a fold over the tree with a context that carries the current
//! location, the heading level, the document's neighbours, the title index
//! and the document's own path and fingerprint. Titles of other documents
//! (neighbours, directory listings) are rendered in turn; the context's hop
//! budget bounds how deep such titles may nest.
use vstd::prelude::*;
use crate::analysis::{Document, Group, Heading};
use crate::ast::{
    Attr, Cmd, Error, ErrorV, Location, Markup, TextElem, Value, XMLElem, attrs_view, lookup,
    node_view, nodes_view, str_attr, text_attr,
};
use crate::highlight::{highlight, highlighted};
use crate::layout::{BLANK_RE, pattern_matches, regex_is_match, texts};
use crate::link::{resolve, resolved};
use crate::text::{chars_of, same_text, split_chars, split_on, string_of, views, lemma_split_on_nonempty};

verus! {

broadcast use vstd::std_specs::vec::axiom_vec_decreases_to_view, vstd::seq::axiom_seq_index_decreases,
    vstd::seq::axiom_seq_subrange_decreases;

/// What rendering carries down the tree.
pub struct Context<'a> {
    /// Where the node being rendered stands.
    pub location: Location,
    /// The rank of the headings of sections at this depth.
    pub level: usize,
    /// How many more titles of other documents may be rendered one inside
    /// another.
    pub hops: usize,
    /// The entry published after this document.
    pub prev: &'a Option<Heading>,
    /// The entry published before this document.
    pub next: &'a Option<Heading>,
    /// The title index.
    pub titles: &'a Vec<Group>,
    /// All documents of the site.
    pub docs: &'a Vec<Document>,
    /// The fingerprint of this document.
    pub sha256: &'a String,
    /// The path of this document.
    pub path: &'a String,
}

pub open spec fn with_loc<'a>(ctx: Context<'a>, loc: Location) -> Context<'a> {
    Context { location: loc, ..ctx }
}

pub open spec fn next_level(l: usize) -> usize {
    if l < usize::MAX {
        (l + 1) as usize
    } else {
        l
    }
}

pub open spec fn deeper<'a>(ctx: Context<'a>) -> Context<'a> {
    Context { level: next_level(ctx.level), ..ctx }
}

pub open spec fn hop<'a>(ctx: Context<'a>) -> Context<'a> {
    Context { hops: (ctx.hops - 1) as usize, ..ctx }
}

pub open spec fn elem(tag: Seq<char>, attrs: Seq<(Seq<char>, Seq<char>)>, children: Seq<Markup>) -> Markup {
    Markup::Elem(tag, attrs, children)
}

pub open spec fn wrap(tag: Seq<char>, r: Result<Seq<Markup>, ErrorV>) -> Result<Markup, ErrorV> {
    match r {
        Ok(xs) => Ok(elem(tag, seq![], xs)),
        Err(e) => Err(e),
    }
}

pub open spec fn cycle_error(loc: Location) -> ErrorV {
    ErrorV::ProcessError { loc, desc: "titles refer to each other without end"@ }
}

/// The title of the document that an index entry names.
pub open spec fn entry_title(docs: Seq<Document>, h: Heading, loc: Location) -> Result<
    Seq<(TextElem, Location)>,
    ErrorV,
> {
    if h.doc < docs.len() {
        text_attr(docs[h.doc as int].root.attrs@, "title"@, docs[h.doc as int].loc)
    } else {
        Err(ErrorV::ProcessError { loc, desc: "an index entry names no document"@ })
    }
}

pub proof fn lemma_lookup_in(attrs: Seq<Attr>, name: Seq<char>)
    ensures
        lookup(attrs, name) matches Some(a) ==> exists|i: int| 0 <= i < attrs.len() && attrs[i] == a,
    decreases attrs.len(),
{
    if attrs.len() > 0 && attrs[0].name@ != name {
        lemma_lookup_in(attrs.drop_first(), name);
        if lookup(attrs, name) is Some {
            let i = choose|i: int| 0 <= i < attrs.drop_first().len() && attrs.drop_first()[i] == lookup(attrs, name).unwrap();
            assert(attrs[i + 1] == lookup(attrs, name).unwrap());
        }
    }
}

pub proof fn lemma_text_attr_decreases(c: Cmd, name: Seq<char>, loc: Location)
    ensures
        text_attr(c.attrs@, name, loc) matches Ok(t) ==> decreases_to!(c => t),
{
    lemma_lookup_in(c.attrs@, name);
    if let Ok(t) = text_attr(c.attrs@, name, loc) {
        let a = lookup(c.attrs@, name).unwrap();
        let i = choose|i: int| 0 <= i < c.attrs@.len() && c.attrs@[i] == a;
        assert(decreases_to!(c.attrs => c.attrs@));
        assert(decreases_to!(c.attrs@ => c.attrs@[i]));
        if let Value::Text(v) = a.value {
            assert(decreases_to!(v => v@));
            assert(decreases_to!(c => v@));
        }
    }
}

/// The text content of a node: its text nodes, in order.
pub open spec fn text_of(m: Markup) -> Seq<char>
    decreases m,
{
    match m {
        Markup::Elem(_, _, ch) => texts_of(ch),
        Markup::Text(s) => s,
        _ => Seq::<char>::empty(),
    }
}

pub open spec fn texts_of(s: Seq<Markup>) -> Seq<char>
    decreases s,
{
    if s.len() == 0 {
        Seq::<char>::empty()
    } else {
        texts_of(s.drop_last()) + text_of(s.last())
    }
}

/// The characters that `char::is_whitespace` accepts (Unicode White_Space).
pub open spec fn is_space(c: char) -> bool {
    ('\u{9}' <= c <= '\u{d}') || c == ' ' || c == '\u{85}' || c == '\u{a0}' || c == '\u{1680}'
        || ('\u{2000}' <= c <= '\u{200a}') || c == '\u{2028}' || c == '\u{2029}' || c == '\u{202f}'
        || c == '\u{205f}' || c == '\u{3000}'
}

pub open spec fn trim_start(s: Seq<char>) -> Seq<char>
    decreases s.len(),
{
    if s.len() > 0 && is_space(s[0]) {
        trim_start(s.drop_first())
    } else {
        s
    }
}

pub open spec fn trim_end(s: Seq<char>) -> Seq<char>
    decreases s.len(),
{
    if s.len() > 0 && is_space(s.last()) {
        trim_end(s.drop_last())
    } else {
        s
    }
}

/// The description of an article: at most its first 64 characters, trimmed,
/// followed by an ellipsis.
pub open spec fn excerpt_of(body: Seq<char>) -> Seq<char> {
    let cut = if body.len() > 64 {
        body.take(64)
    } else {
        body
    };
    trim_end(trim_start(cut)) + "……"@
}

pub open spec fn leading_spaces(l: Seq<char>) -> nat
    decreases l.len(),
{
    if l.len() > 0 && l[0] == ' ' {
        1 + leading_spaces(l.drop_first())
    } else {
        0
    }
}

pub open spec fn is_blank(l: Seq<char>) -> bool {
    pattern_matches(BLANK_RE@, l)
}

pub open spec fn leading_blank_lines(lines: Seq<Seq<char>>) -> nat
    decreases lines.len(),
{
    if lines.len() > 0 && is_blank(lines[0]) {
        1 + leading_blank_lines(lines.drop_first())
    } else {
        0
    }
}

pub open spec fn trailing_blank_lines(lines: Seq<Seq<char>>) -> nat
    decreases lines.len(),
{
    if lines.len() > 0 && is_blank(lines.last()) {
        1 + trailing_blank_lines(lines.drop_last())
    } else {
        0
    }
}

/// The least indentation of the lines that are not blank (100000 if none).
pub open spec fn min_indent(lines: Seq<Seq<char>>) -> nat
    decreases lines.len(),
{
    if lines.len() == 0 {
        100000
    } else {
        let m = min_indent(lines.drop_last());
        if is_blank(lines.last()) || m <= leading_spaces(lines.last()) {
            m
        } else {
            leading_spaces(lines.last())
        }
    }
}

pub open spec fn cut_indent(l: Seq<char>, n: nat) -> Seq<char> {
    if n <= l.len() {
        l.skip(n as int)
    } else {
        Seq::<char>::empty()
    }
}

/// The lines of a code block: blank lines at both ends dropped, and the
/// common indentation cut from each line that is left.
pub open spec fn dedented(src: Seq<char>) -> Seq<Seq<char>> {
    let lines = split_on(src, '\n');
    let head = leading_blank_lines(lines);
    let tail = trailing_blank_lines(lines);
    let n = min_indent(lines);
    if head >= lines.len() {
        Seq::<Seq<char>>::empty()
    } else {
        lines.subrange(head as int, lines.len() - tail).map_values(|l: Seq<char>| cut_indent(l, n))
    }
}

pub open spec fn join_lines(lines: Seq<Seq<char>>) -> Seq<char>
    decreases lines.len(),
{
    if lines.len() == 0 {
        Seq::<char>::empty()
    } else if lines.len() == 1 {
        lines[0]
    } else {
        join_lines(lines.drop_last()) + seq!['\n'] + lines.last()
    }
}

/// A code block: highlighted markup where the highlighter knows the
/// language, else the lines as they are.
pub open spec fn code_block(highlight: Option<Seq<char>>, lines: Seq<Seq<char>>) -> Markup {
    let raw = match highlight {
        Some(h) => h,
        None => join_lines(lines),
    };
    elem("code"@, seq![], seq![elem("pre"@, seq![], seq![Markup::Raw(raw)])])
}

pub open spec fn blockcode_spec(attrs: Seq<Attr>, loc: Location) -> Result<Markup, ErrorV> {
    match str_attr(attrs, "src"@, loc) {
        Err(e) => Err(e),
        Ok(src) => match str_attr(attrs, "lang"@, loc) {
            Err(e) => Err(e),
            Ok(lang) => Ok(code_block(highlighted(lang, dedented(src)), dedented(src))),
        },
    }
}

/// The decimal digits of `n`, with a leading `-` when negative.
pub open spec fn decimal(n: int) -> Seq<char>
    decreases (if n < 0 { -n + 1 } else { n }),
{
    if n < 0 {
        seq!['-'] + decimal(-n)
    } else if n < 10 {
        seq![crate::analysis::hex_digit(n)]
    } else {
        decimal(n / 10) + seq![crate::analysis::hex_digit(n % 10)]
    }
}

pub open spec fn opt_str(attrs: Seq<Attr>, name: Seq<char>) -> Option<Seq<char>> {
    match lookup(attrs, name) {
        Some(a) => match a.value {
            Value::Str(s) => Some(s@),
            _ => None,
        },
        None => None,
    }
}

pub open spec fn opt_int(attrs: Seq<Attr>, name: Seq<char>) -> Option<Seq<char>> {
    match lookup(attrs, name) {
        Some(a) => match a.value {
            Value::Int(i) => Some(decimal(i as int)),
            _ => None,
        },
        None => None,
    }
}

pub open spec fn opt_pair(name: Seq<char>, v: Option<Seq<char>>) -> Seq<(Seq<char>, Seq<char>)> {
    match v {
        Some(s) => seq![(name, s)],
        None => seq![],
    }
}

/// The attributes of an inline frame: those of `width`, `height`,
/// `frameborder` (integers), `style`, `scrolling` and `src` (strings) that
/// are present, in that order.
pub open spec fn iframe_attrs(attrs: Seq<Attr>) -> Seq<(Seq<char>, Seq<char>)> {
    opt_pair("width"@, opt_int(attrs, "width"@)) + opt_pair("height"@, opt_int(attrs, "height"@))
        + opt_pair("frameborder"@, opt_int(attrs, "frameborder"@)) + opt_pair(
        "style"@,
        opt_str(attrs, "style"@),
    ) + opt_pair("scrolling"@, opt_str(attrs, "scrolling"@)) + opt_pair("src"@, opt_str(attrs, "src"@))
}

pub open spec fn img_spec(attrs: Seq<Attr>, loc: Location) -> Result<Markup, ErrorV> {
    match str_attr(attrs, "url"@, loc) {
        Err(e) => Err(e),
        Ok(url) => match str_attr(attrs, "alt"@, loc) {
            Err(e) => Err(e),
            Ok(alt) => Ok(
                Markup::Single(
                    "img"@,
                    match opt_str(attrs, "classes"@) {
                        Some(c) => seq![("src"@, url), ("class"@, c), ("alt"@, alt)],
                        None => seq![("src"@, url), ("alt"@, alt)],
                    },
                ),
            ),
        },
    }
}

pub open spec fn figure_error(loc: Location) -> ErrorV {
    ErrorV::ProcessError { loc, desc: "\\figure can only have \\img as child element."@ }
}

/// The images of a figure: each child must be an `img` command.
pub open spec fn figure_images(s: Seq<(TextElem, Location)>, loc: Location) -> Result<Seq<Markup>, ErrorV>
    decreases s.len(),
{
    if s.len() == 0 {
        Ok(seq![])
    } else {
        match figure_images(s.drop_last(), loc) {
            Err(e) => Err(e),
            Ok(xs) => match s.last().0 {
                TextElem::Cmd(c) => if c.name@ == "img"@ {
                    match img_spec(c.attrs@, s.last().1) {
                        Err(e) => Err(e),
                        Ok(x) => Ok(xs.push(x)),
                    }
                } else {
                    Err(figure_error(loc))
                },
                _ => Err(figure_error(loc)),
            },
        }
    }
}

pub open spec fn ul_error(loc: Location) -> ErrorV {
    ErrorV::ProcessError { loc, desc: "\\ul can only have commands as child elements."@ }
}

pub open spec fn find_group(titles: Seq<Group>, dir: Seq<char>) -> Option<Group>
    decreases titles.len(),
{
    if titles.len() == 0 {
        None
    } else if titles[0].dir@ == dir {
        Some(titles[0])
    } else {
        find_group(titles.drop_first(), dir)
    }
}

pub open spec fn meta(key: Seq<char>, name: Seq<char>, content: Seq<char>) -> Markup {
    Markup::Single("meta"@, seq![(key, name), ("content"@, content)])
}

/// The head elements that every page shares.
pub open spec fn header_common_spec(path: Seq<char>) -> Seq<Markup> {
    seq![
        Markup::Single("link"@, seq![("href"@, resolved("index.css"@, path)), ("rel"@, "stylesheet"@), ("type"@, "text/css"@)]),
        Markup::Single("link"@, seq![("href"@, resolved("syntect.css"@, path)), ("rel"@, "stylesheet"@), ("type"@, "text/css"@)]),
        Markup::Single("link"@, seq![("href"@, resolved("res/favicon.ico"@, path)), ("rel"@, "icon"@), ("type"@, "image/vnd.microsoft.icon"@)]),
        meta("name"@, "twitter:card"@, "summary"@),
        meta("name"@, "twitter:site"@, "@namachan10777"@),
        meta("name"@, "twitter:creator"@, "@namachan10777"@),
        meta("property"@, "og:url"@, "https://namachan10777.dev/"@ + path),
        meta("property"@, "og:site_name"@, "namachan10777"@),
        meta("property"@, "og:image"@, "https://namachan10777.dev/res/icon.jpg"@),
        meta("name"@, "twitter:image"@, "https://namachan10777.dev/res/icon.jpg"@),
    ]
}

/// A whole page.
pub open spec fn page(prefix: Seq<char>, head: Seq<Markup>, body: Seq<Markup>) -> Markup {
    elem(
        "html"@,
        seq![("xmlns"@, "http://www.w3.org/1999/xhtml"@), ("lang"@, "ja"@)],
        seq![
            elem("head"@, seq![("prefix"@, prefix)], head),
            elem("body"@, seq![], seq![elem("div"@, seq![("id"@, "root"@)], body)]),
        ],
    )
}

pub open spec fn index_page(path: Seq<char>, title: Seq<Markup>, body: Seq<Markup>) -> Markup {
    let t = texts_of(title);
    page(
        "og: http://ogp.me/ns# article: http://ogp.me/ns/article#"@,
        header_common_spec(path) + seq![
            meta("property"@, "og:title"@, t),
            meta("name"@, "twitter:title"@, t),
            meta("property"@, "og:type"@, "website"@),
            meta("property"@, "og:description"@, "about me"@),
            meta("name"@, "description"@, "about me"@),
            meta("name"@, "twitter:description"@, "about me"@),
            elem("title"@, seq![], title),
        ],
        seq![elem("header"@, seq![], seq![elem("h1"@, seq![], title)])] + body,
    )
}

pub open spec fn nav_link(h: Option<Heading>, title: Option<Seq<Markup>>, path: Seq<char>, class: Seq<char>) -> Seq<Markup> {
    match (h, title) {
        (Some(h), Some(t)) => seq![elem("a"@, seq![("href"@, resolved(h.path@, path)), ("class"@, class)], t)],
        _ => seq![],
    }
}

pub open spec fn short_hash(sha: Seq<char>) -> Seq<char> {
    if sha.len() > 7 {
        sha.take(7)
    } else {
        sha
    }
}

pub open spec fn article_page(
    ctx: Context,
    title: Seq<Markup>,
    prev: Option<Seq<Markup>>,
    next: Option<Seq<Markup>>,
    body: Seq<Markup>,
) -> Markup {
    let path = ctx.path@;
    let t = texts_of(title);
    let d = excerpt_of(texts_of(body));
    page(
        "og: http://ogp.me/ns# object: http://ogp.me/ns/object#"@,
        header_common_spec(path) + seq![
            elem("title"@, seq![], title),
            meta("property"@, "og:title"@, t),
            meta("name"@, "twitter:title"@, t),
            meta("property"@, "og:type"@, "article"@),
            meta("property"@, "og:description"@, d),
            meta("name"@, "description"@, d),
            meta("name"@, "twitter:description"@, d),
        ],
        seq![
            elem(
                "header"@,
                seq![],
                seq![
                    elem("a"@, seq![("href"@, resolved("index.html"@, path))], seq![Markup::Text("戻る"@)]),
                    elem("div"@, seq![("class"@, "hash"@)], seq![Markup::Text(short_hash(ctx.sha256@))]),
                    elem("h1"@, seq![], title),
                ],
            ),
        ] + body + seq![
            elem(
                "footer"@,
                seq![],
                nav_link(*ctx.prev, prev, path, "prev-article"@) + nav_link(*ctx.next, next, path, "next-article"@),
            ),
        ],
    )
}

/// The place of a command name in the fixed set of commands (15 where the
/// name is not one of them).
pub open spec fn cmd_kind(n: Seq<char>) -> int {
    if n == "p"@ {
        0

    } else if n == "line"@ {
        1

    } else if n == "address"@ {
        2

    } else if n == "n"@ {
        3

    } else if n == "code"@ {
        4

    } else if n == "link"@ {
        5

    } else if n == "img"@ {
        6

    } else if n == "iframe"@ {
        7

    } else if n == "blockcode"@ {
        8

    } else if n == "ul"@ {
        9

    } else if n == "section"@ {
        10

    } else if n == "figure"@ {
        11

    } else if n == "articles"@ {
        12

    } else if n == "article"@ {
        13

    } else if n == "index"@ {
        14
    } else {
        15
    }
}

/// Renders inline content, each element at its own location.
pub open spec fn render_elems(ctx: Context, s: Seq<(TextElem, Location)>) -> Result<Seq<Markup>, ErrorV>
    decreases ctx.hops, 0int, s,
{
    if s.len() == 0 {
        Ok(seq![])
    } else {
        match render_elems(ctx, s.drop_last()) {
            Err(e) => Err(e),
            Ok(xs) => match render_elem(with_loc(ctx, s.last().1), s.last().0) {
                Err(e) => Err(e),
                Ok(x) => Ok(xs.push(x)),
            },
        }
    }
}

pub open spec fn render_elem(ctx: Context, e: TextElem) -> Result<Markup, ErrorV>
    decreases ctx.hops, 0int, e,
{
    match e {
        TextElem::Plain(s) => Ok(Markup::Text(s@)),
        TextElem::Str(s) => Ok(elem("span"@, seq![("class"@, "inline-code"@)], seq![Markup::Text(s@)])),
        TextElem::Cmd(c) => render_cmd(ctx, c),
    }
}

/// Renders the title of the document that an index entry names.
pub open spec fn render_entry_title(ctx: Context, h: Heading) -> Result<Seq<Markup>, ErrorV>
    decreases ctx.hops, 1int, h,
{
    match entry_title(ctx.docs@, h, ctx.location) {
        Err(e) => Err(e),
        Ok(t) => render_elems(ctx, t),
    }
}

/// The list items of a directory listing.
pub open spec fn render_entries(ctx: Context, hs: Seq<Heading>) -> Result<Seq<Markup>, ErrorV>
    decreases ctx.hops, 1int, hs,
{
    if hs.len() == 0 {
        Ok(seq![])
    } else {
        match render_entries(ctx, hs.drop_last()) {
            Err(e) => Err(e),
            Ok(xs) => match render_entry_title(ctx, hs.last()) {
                Err(e) => Err(e),
                Ok(t) => Ok(
                    xs.push(
                        elem("li"@, seq![], seq![elem("a"@, seq![("href"@, resolved(hs.last().path@, ctx.path@))], t)]),
                    ),
                ),
            },
        }
    }
}

/// The items of a list: an `n` command gives its content, any other
/// command itself.
pub open spec fn render_items(ctx: Context, s: Seq<(TextElem, Location)>) -> Result<Seq<Markup>, ErrorV>
    decreases ctx.hops, 0int, s,
{
    if s.len() == 0 {
        Ok(seq![])
    } else {
        match render_items(ctx, s.drop_last()) {
            Err(e) => Err(e),
            Ok(xs) => match s.last().0 {
                TextElem::Cmd(c) => if c.name@ == "n"@ {
                    match render_elems(ctx, c.inner@) {
                        Err(e) => Err(e),
                        Ok(ys) => Ok(xs.push(elem("li"@, seq![], ys))),
                    }
                } else {
                    match render_cmd(with_loc(ctx, s.last().1), c) {
                        Err(e) => Err(e),
                        Ok(y) => Ok(xs.push(elem("li"@, seq![], seq![y]))),
                    }
                },
                _ => Err(ul_error(ctx.location)),
            },
        }
    }
}

/// Renders one command.
pub open spec fn render_cmd(ctx: Context, c: Cmd) -> Result<Markup, ErrorV>
    decreases ctx.hops, 0int, c,
{
    let n = c.name@;
    let k = cmd_kind(n);
    let loc = ctx.location;
    proof {
        lemma_text_attr_decreases(c, "title"@, loc);
        lemma_text_attr_decreases(c, "caption"@, loc);
    }
    if k == 0 {
        wrap("p"@, render_elems(ctx, c.inner@))
    } else if k == 1 {
        wrap("span"@, render_elems(ctx, c.inner@))
    } else if k == 2 {
        wrap("address"@, render_elems(ctx, c.inner@))
    } else if k == 3 {
        wrap("div"@, render_elems(ctx, c.inner@))
    } else if k == 4 {
        wrap("code"@, render_elems(ctx, c.inner@))
    } else if k == 5 {
        match str_attr(c.attrs@, "url"@, loc) {
            Err(e) => Err(e),
            Ok(url) => match render_elems(ctx, c.inner@) {
                Err(e) => Err(e),
                Ok(xs) => Ok(elem("a"@, seq![("href"@, url)], xs)),
            },
        }
    } else if k == 6 {
        img_spec(c.attrs@, loc)
    } else if k == 7 {
        Ok(Markup::Single("iframe"@, iframe_attrs(c.attrs@)))
    } else if k == 8 {
        blockcode_spec(c.attrs@, loc)
    } else if k == 9 {
        wrap("ul"@, render_items(ctx, c.inner@))
    } else if k == 10 {
        match text_attr(c.attrs@, "title"@, loc) {
            Err(e) => Err(e),
            Ok(t) => match render_elems(deeper(ctx), t) {
                Err(e) => Err(e),
                Ok(ts) => match render_elems(deeper(ctx), c.inner@) {
                    Err(e) => Err(e),
                    Ok(bs) => Ok(
                        elem(
                            "section"@,
                            seq![],
                            seq![elem("header"@, seq![], seq![elem(seq!['h'] + decimal(ctx.level as int), seq![], ts)])] + bs,
                        ),
                    ),
                },
            },
        }
    } else if k == 11 {
        match text_attr(c.attrs@, "caption"@, loc) {
            Err(e) => Err(e),
            Ok(cap) => match figure_images(c.inner@, loc) {
                Err(e) => Err(e),
                Ok(imgs) => match render_elems(ctx, cap) {
                    Err(e) => Err(e),
                    Ok(cs) => {
                        let inner = seq![
                            elem("div"@, seq![("class"@, "images"@)], imgs),
                            elem("figurecaption"@, seq![], cs),
                        ];
                        Ok(
                            match opt_str(c.attrs@, "id"@) {
                                Some(id) => elem("figure"@, seq![("id"@, id)], inner),
                                None => elem("figure"@, seq![], inner),
                            },
                        )
                    },
                },
            },
        }
    } else if k == 12 {
        match str_attr(c.attrs@, "dir"@, loc) {
            Err(e) => Err(e),
            Ok(dir) => match find_group(ctx.titles@, dir) {
                None => Ok(elem("ul"@, seq![], seq![])),
                Some(g) => if ctx.hops == 0 {
                    Err(cycle_error(loc))
                } else {
                    wrap("ul"@, render_entries(hop(ctx), g.articles@))
                },
            },
        }
    } else if k == 13 {
        match text_attr(c.attrs@, "title"@, loc) {
            Err(e) => Err(e),
            Ok(t) => match render_elems(ctx, t) {
                Err(e) => Err(e),
                Ok(ts) => match (match *ctx.prev {
                    None => Ok(None),
                    Some(h) => if ctx.hops == 0 {
                        Err(cycle_error(loc))
                    } else {
                        match render_entry_title(hop(ctx), h) {
                            Err(e) => Err(e),
                            Ok(t) => Ok(Some(t)),
                        }
                    },
                }) {
                    Err(e) => Err(e),
                    Ok(p) => match (match *ctx.next {
                        None => Ok(None),
                        Some(h) => if ctx.hops == 0 {
                            Err(cycle_error(loc))
                        } else {
                            match render_entry_title(hop(ctx), h) {
                                Err(e) => Err(e),
                                Ok(t) => Ok(Some(t)),
                            }
                        },
                    }) {
                        Err(e) => Err(e),
                        Ok(x) => match render_elems(ctx, c.inner@) {
                            Err(e) => Err(e),
                            Ok(bs) => Ok(article_page(ctx, ts, p, x, bs)),
                        },
                    },
                },
            },
        }
    } else if k == 14 {
        match text_attr(c.attrs@, "title"@, loc) {
            Err(e) => Err(e),
            Ok(t) => match render_elems(ctx, t) {
                Err(e) => Err(e),
                Ok(ts) => match render_elems(ctx, c.inner@) {
                    Err(e) => Err(e),
                    Ok(bs) => Ok(index_page(ctx.path@, ts, bs)),
                },
            },
        }
    } else {
        Err(ErrorV::NoSuchCmd { loc, name: n })
    }
}

pub open spec fn same_result(r: Result<XMLElem, Error>, s: Result<Markup, ErrorV>) -> bool {
    match r {
        Ok(x) => s == Ok::<Markup, ErrorV>(x@),
        Err(e) => s == Err::<Markup, ErrorV>(e@),
    }
}

pub open spec fn same_results(r: Result<Vec<XMLElem>, Error>, s: Result<Seq<Markup>, ErrorV>) -> bool {
    match r {
        Ok(x) => s == Ok::<Seq<Markup>, ErrorV>(nodes_view(x@)),
        Err(e) => s == Err::<Seq<Markup>, ErrorV>(e@),
    }
}

proof fn lemma_nodes_view(s: Seq<XMLElem>)
    ensures
        nodes_view(s).len() == s.len(),
        forall|i: int| 0 <= i < s.len() ==> #[trigger] nodes_view(s)[i] == node_view(s[i]),
    decreases s.len(),
{
    if s.len() > 0 {
        lemma_nodes_view(s.drop_last());
    }
}

proof fn lemma_nodes_view_push(s: Seq<XMLElem>, x: XMLElem)
    ensures
        nodes_view(s.push(x)) == nodes_view(s).push(node_view(x)),
{
    assert(s.push(x).drop_last() =~= s);
}

proof fn lemma_nodes_view_concat(a: Seq<XMLElem>, b: Seq<XMLElem>)
    ensures
        nodes_view(a + b) == nodes_view(a) + nodes_view(b),
{
    lemma_nodes_view(a);
    lemma_nodes_view(b);
    lemma_nodes_view(a + b);
    assert(nodes_view(a + b) =~= nodes_view(a) + nodes_view(b));
}

fn el(tag: &str, attrs: Vec<(String, String)>, children: Vec<XMLElem>) -> (r: XMLElem)
    ensures
        r@ == elem(tag@, attrs_view(attrs@), nodes_view(children@)),
{
    XMLElem::WithElem(tag.to_owned(), attrs, children)
}

fn single(tag: &str, attrs: Vec<(String, String)>) -> (r: XMLElem)
    ensures
        r@ == Markup::Single(tag@, attrs_view(attrs@)),
{
    XMLElem::Single(tag.to_owned(), attrs)
}

fn kv(k: &str, v: &str) -> (r: (String, String))
    ensures
        r.0@ == k@,
        r.1@ == v@,
{
    (k.to_owned(), v.to_owned())
}

fn no_attrs() -> (r: Vec<(String, String)>)
    ensures
        attrs_view(r@) == Seq::<(Seq<char>, Seq<char>)>::empty(),
{
    let v: Vec<(String, String)> = Vec::new();
    assert(attrs_view(v@) =~= Seq::<(Seq<char>, Seq<char>)>::empty());
    v
}

fn attrs1(a: (String, String)) -> (r: Vec<(String, String)>)
    ensures
        attrs_view(r@) == seq![(a.0@, a.1@)],
{
    let mut v: Vec<(String, String)> = Vec::new();
    let ghost a0 = a;
    v.push(a);
    assert(attrs_view(v@) =~= seq![(a0.0@, a0.1@)]);
    v
}

fn attrs2(a: (String, String), b: (String, String)) -> (r: Vec<(String, String)>)
    ensures
        attrs_view(r@) == seq![(a.0@, a.1@), (b.0@, b.1@)],
{
    let ghost (a0, b0) = (a, b);
    let mut v: Vec<(String, String)> = Vec::new();
    v.push(a);
    v.push(b);
    assert(attrs_view(v@) =~= seq![(a0.0@, a0.1@), (b0.0@, b0.1@)]);
    v
}

fn attrs3(a: (String, String), b: (String, String), c: (String, String)) -> (r: Vec<(String, String)>)
    ensures
        attrs_view(r@) == seq![(a.0@, a.1@), (b.0@, b.1@), (c.0@, c.1@)],
{
    let ghost (a0, b0, c0) = (a, b, c);
    let mut v: Vec<(String, String)> = Vec::new();
    v.push(a);
    v.push(b);
    v.push(c);
    assert(attrs_view(v@) =~= seq![(a0.0@, a0.1@), (b0.0@, b0.1@), (c0.0@, c0.1@)]);
    v
}

fn nodes1(a: XMLElem) -> (r: Vec<XMLElem>)
    ensures
        nodes_view(r@) == seq![a@],
{
    let ghost a0 = a;
    let mut v: Vec<XMLElem> = Vec::new();
    v.push(a);
    proof {
        lemma_nodes_view(v@);
    }
    assert(nodes_view(v@) =~= seq![a0@]);
    v
}

fn push_node(v: &mut Vec<XMLElem>, x: XMLElem)
    ensures
        nodes_view(final(v)@) == nodes_view(old(v)@).push(x@),
{
    proof {
        lemma_nodes_view_push(v@, x);
    }
    v.push(x);
}

fn append_nodes(v: &mut Vec<XMLElem>, mut w: Vec<XMLElem>)
    ensures
        nodes_view(final(v)@) == nodes_view(old(v)@) + nodes_view(w@),
{
    proof {
        lemma_nodes_view_concat(v@, w@);
    }
    v.append(&mut w);
}

fn meta_node(key: &str, name: &str, content: &str) -> (r: XMLElem)
    ensures
        r@ == meta(key@, name@, content@),
{
    single("meta", attrs2(kv(key, name), kv("content", content)))
}

fn digit(n: u64) -> (r: char)
    requires
        n < 16,
    ensures
        r == crate::analysis::hex_digit(n as int),
{
    let d = vec!['0', '1', '2', '3', '4', '5', '6', '7', '8', '9', 'a', 'b', 'c', 'd', 'e', 'f'];
    assert(d@ == seq!['0', '1', '2', '3', '4', '5', '6', '7', '8', '9', 'a', 'b', 'c', 'd', 'e', 'f']);
    d[n as usize]
}

fn decimal_of(n: u64) -> (r: Vec<char>)
    ensures
        r@ == decimal(n as int),
    decreases n,
{
    if n < 10 {
        let mut v: Vec<char> = Vec::new();
        v.push(digit(n));
        assert(v@ =~= decimal(n as int));
        v
    } else {
        let mut v = decimal_of(n / 10);
        v.push(digit(n % 10));
        assert(v@ =~= decimal(n as int));
        v
    }
}

/// The decimal form of `i`.
pub fn int_to_string(i: i64) -> (r: String)
    ensures
        r@ == decimal(i as int),
{
    if i < 0 {
        let m: u64 = (-(i as i128)) as u64;
        let mut v: Vec<char> = Vec::new();
        v.push('-');
        let mut d = decimal_of(m);
        v.append(&mut d);
        assert(v@ =~= decimal(i as int));
        string_of(&v)
    } else {
        string_of(&decimal_of(i as u64))
    }
}

/// The text content of a node.
pub fn extract_string(x: &XMLElem) -> (r: String)
    ensures
        r@ == text_of(x@),
    decreases x, 1int,
{
    match x {
        XMLElem::WithElem(_, _, ch) => extract_strings(ch),
        XMLElem::Text(s) => s.clone(),
        _ => String::new(),
    }
}

/// The text content of a sequence of nodes, one after another.
pub fn extract_strings(v: &Vec<XMLElem>) -> (r: String)
    ensures
        r@ == texts_of(nodes_view(v@)),
    decreases v, 0int,
{
    let mut out: Vec<char> = Vec::new();
    let mut i: usize = 0;
    while i < v.len()
        invariant
            i <= v.len(),
            out@ == texts_of(nodes_view(v@.take(i as int))),
        decreases v.len() - i,
    {
        proof {
            assert(decreases_to!(v => v@[i as int]));
            lemma_nodes_view_push(v@.take(i as int), v@[i as int]);
            assert(v@.take(i + 1) =~= v@.take(i as int).push(v@[i as int]));
            assert(nodes_view(v@.take(i as int)).push(node_view(v@[i as int])).drop_last() =~= nodes_view(v@.take(i as int)));
        }
        let s = extract_string(&v[i]);
        let mut c = chars_of(s.as_str());
        out.append(&mut c);
        i = i + 1;
    }
    assert(v@.take(v.len() as int) =~= v@);
    string_of(&out)
}

fn space(c: char) -> (r: bool)
    ensures
        r == is_space(c),
{
    ('\u{9}' <= c && c <= '\u{d}') || c == ' ' || c == '\u{85}' || c == '\u{a0}' || c == '\u{1680}'
        || ('\u{2000}' <= c && c <= '\u{200a}') || c == '\u{2028}' || c == '\u{2029}' || c == '\u{202f}'
        || c == '\u{205f}' || c == '\u{3000}'
}

fn trim_chars(s: &Vec<char>) -> (r: Vec<char>)
    ensures
        r@ == trim_end(trim_start(s@)),
{
    let mut i: usize = 0;
    assert(s@.skip(0) =~= s@);
    while i < s.len() && space(s[i])
        invariant
            i <= s.len(),
            trim_start(s@) == trim_start(s@.skip(i as int)),
        decreases s.len() - i,
    {
        assert(s@.skip(i as int).drop_first() =~= s@.skip(i + 1));
        i = i + 1;
    }
    let ghost t = s@.skip(i as int);
    assert(trim_start(t) == t);
    let mut j: usize = s.len();
    assert(t.take(t.len() as int) =~= t);
    while j > i && space(s[j - 1])
        invariant
            i <= j <= s.len(),
            t == s@.skip(i as int),
            trim_end(t) == trim_end(t.take(j - i)),
        decreases j,
    {
        assert(t.take(j - i).drop_last() =~= t.take(j - i - 1));
        j = j - 1;
    }
    let mut out: Vec<char> = Vec::new();
    let mut k: usize = i;
    while k < j
        invariant
            i <= k <= j,
            j <= s.len(),
            out@ == s@.subrange(i as int, k as int),
        decreases j - k,
    {
        out.push(s[k]);
        k = k + 1;
        assert(out@ =~= s@.subrange(i as int, k as int));
    }
    assert(out@ =~= t.take(j - i));
    out
}

/// The description of an article whose body reads `body`.
pub fn excerpt(body: &str) -> (r: String)
    ensures
        r@ == excerpt_of(body@),
{
    let c = chars_of(body);
    let mut cut: Vec<char> = Vec::new();
    let lim: usize = if c.len() > 64 { 64 } else { c.len() };
    let mut i: usize = 0;
    while i < lim
        invariant
            i <= lim,
            lim <= c.len(),
            cut@ == c@.take(i as int),
        decreases lim - i,
    {
        cut.push(c[i]);
        i = i + 1;
        assert(cut@ =~= c@.take(i as int));
    }
    assert(c@.len() <= 64 ==> c@.take(lim as int) =~= c@);
    let mut t = trim_chars(&cut);
    let mut dots = chars_of("……");
    t.append(&mut dots);
    string_of(&t)
}

fn count_leading_spaces(l: &Vec<char>) -> (r: usize)
    ensures
        r as nat == leading_spaces(l@),
        r <= l.len(),
{
    let mut k: usize = 0;
    assert(l@.skip(0) =~= l@);
    while k < l.len() && l[k] == ' '
        invariant
            k <= l.len(),
            leading_spaces(l@) == k + leading_spaces(l@.skip(k as int)),
        decreases l.len() - k,
    {
        assert(l@.skip(k as int).drop_first() =~= l@.skip(k + 1));
        k = k + 1;
    }
    k
}

/// The lines of a code block with source `src`: blank lines at both ends
/// dropped and the common indentation removed.
pub fn dedent(src: &str) -> (r: Vec<String>)
    ensures
        texts(r@) == dedented(src@),
{
    let lines = split_chars(&chars_of(src), '\n');
    let ghost ls = views(lines@);
    proof {
        lemma_split_on_nonempty(src@, '\n');
    }
    let n = lines.len();
    let mut blank: Vec<bool> = Vec::new();
    let mut i: usize = 0;
    while i < n
        invariant
            n == lines.len(),
            ls == views(lines@),
            i <= n,
            blank.len() == i,
            forall|k: int| 0 <= k < i ==> blank@[k] == is_blank(#[trigger] ls[k]),
        decreases n - i,
    {
        proof {
            reveal_strlit("^[ \\t\\r\\n]*$");
        }
        let b = regex_is_match(BLANK_RE, string_of(&lines[i]).as_str());
        blank.push(b);
        i = i + 1;
    }
    let mut head: usize = 0;
    assert(ls.skip(0) =~= ls);
    while head < n && blank[head]
        invariant
            n == lines.len(),
            ls == views(lines@),
            head <= n,
            blank.len() == n,
            forall|k: int| 0 <= k < n ==> blank@[k] == is_blank(#[trigger] ls[k]),
            leading_blank_lines(ls) == head + leading_blank_lines(ls.skip(head as int)),
        decreases n - head,
    {
        assert(ls.skip(head as int).drop_first() =~= ls.skip(head + 1));
        head = head + 1;
    }
    let mut tail: usize = 0;
    assert(ls.take(n as int) =~= ls);
    while tail < n && blank[n - 1 - tail]
        invariant
            n == lines.len(),
            ls == views(lines@),
            tail <= n,
            blank.len() == n,
            forall|k: int| 0 <= k < n ==> blank@[k] == is_blank(#[trigger] ls[k]),
            trailing_blank_lines(ls) == tail + trailing_blank_lines(ls.take(n - tail)),
        decreases n - tail,
    {
        assert(ls.take(n - tail).drop_last() =~= ls.take(n - tail - 1));
        tail = tail + 1;
    }
    let mut pad: usize = 100000;
    let mut i: usize = 0;
    assert(ls.take(0) =~= Seq::<Seq<char>>::empty());
    while i < n
        invariant
            n == lines.len(),
            ls == views(lines@),
            i <= n,
            blank.len() == n,
            forall|k: int| 0 <= k < n ==> blank@[k] == is_blank(#[trigger] ls[k]),
            pad as nat == min_indent(ls.take(i as int)),
        decreases n - i,
    {
        assert(ls.take(i + 1).drop_last() =~= ls.take(i as int));
        if !blank[i] {
            let k = count_leading_spaces(&lines[i]);
            if k < pad {
                pad = k;
            }
        }
        i = i + 1;
    }
    let mut out: Vec<String> = Vec::new();
    if head >= n {
        assert(texts(out@) =~= dedented(src@));
        return out;
    }
    proof {
        assert(leading_blank_lines(ls) < n ==> !is_blank(ls[leading_blank_lines(ls) as int])) by {
            lemma_leading_blank_stops(ls);
        }
        lemma_blank_ends(ls);
    }
    let mut i: usize = head;
    while i < n - tail
        invariant
            n == lines.len(),
            ls == views(lines@),
            head <= i <= n - tail,
            pad as nat == min_indent(ls),
            texts(out@) == ls.subrange(head as int, i as int).map_values(|l: Seq<char>| cut_indent(l, pad as nat)),
        decreases n - tail - i,
    {
        let l = &lines[i];
        let mut cut: Vec<char> = Vec::new();
        if pad <= l.len() {
            let mut k: usize = pad;
            while k < l.len()
                invariant
                    pad <= k <= l.len(),
                    cut@ == l@.subrange(pad as int, k as int),
                decreases l.len() - k,
            {
                cut.push(l[k]);
                k = k + 1;
                assert(cut@ =~= l@.subrange(pad as int, k as int));
            }
        }
        assert(cut@ =~= cut_indent(l@, pad as nat));
        let ghost prev = out@;
        out.push(string_of(&cut));
        assert(ls[i as int] == l@);
        assert(texts(out@) =~= texts(prev).push(cut@));
        assert(texts(out@) =~= ls.subrange(head as int, i + 1).map_values(|l: Seq<char>| cut_indent(l, pad as nat)));
        i = i + 1;
    }
    out
}

proof fn lemma_leading_blank_stops(ls: Seq<Seq<char>>)
    ensures
        leading_blank_lines(ls) <= ls.len(),
        leading_blank_lines(ls) < ls.len() ==> !is_blank(ls[leading_blank_lines(ls) as int]),
    decreases ls.len(),
{
    if ls.len() > 0 && is_blank(ls[0]) {
        lemma_leading_blank_stops(ls.drop_first());
    }
}

proof fn lemma_trailing_blank_bound(ls: Seq<Seq<char>>)
    ensures
        trailing_blank_lines(ls) <= ls.len(),
        forall|k: int| ls.len() - trailing_blank_lines(ls) <= k < ls.len() ==> is_blank(#[trigger] ls[k]),
    decreases ls.len(),
{
    if ls.len() > 0 && is_blank(ls.last()) {
        lemma_trailing_blank_bound(ls.drop_last());
        assert forall|k: int| ls.len() - trailing_blank_lines(ls) <= k < ls.len() implies is_blank(#[trigger] ls[k]) by {
            if k < ls.len() - 1 {
                assert(ls[k] == ls.drop_last()[k]);
            }
        }
    }
}

/// Where some line is not blank, the blank lines at the two ends do not
/// overlap.
proof fn lemma_blank_ends(ls: Seq<Seq<char>>)
    requires
        leading_blank_lines(ls) < ls.len(),
    ensures
        leading_blank_lines(ls) + trailing_blank_lines(ls) <= ls.len(),
{
    lemma_leading_blank_stops(ls);
    lemma_trailing_blank_bound(ls);
    let h = leading_blank_lines(ls) as int;
    if h >= ls.len() - trailing_blank_lines(ls) {
        assert(is_blank(ls[h]));
    }
}

pub open spec fn opt_view(o: Option<String>) -> Option<Seq<char>> {
    match o {
        Some(h) => Some(h@),
        None => None,
    }
}

/// A code block from the dedented lines and what the highlighter made of
/// them.
pub fn blockcode_markup(highlighted_html: Option<String>, lines: &Vec<String>) -> (r: XMLElem)
    ensures
        r@ == code_block(opt_view(highlighted_html), texts(lines@)),
{
    let raw = match highlighted_html {
        Some(h) => h,
        None => {
            let mut out: Vec<char> = Vec::new();
            let mut i: usize = 0;
            while i < lines.len()
                invariant
                    i <= lines.len(),
                    out@ == join_lines(texts(lines@).take(i as int)),
                decreases lines.len() - i,
            {
                if i > 0 {
                    out.push('\n');
                }
                let mut c = chars_of(lines[i].as_str());
                out.append(&mut c);
                proof {
                    let s1 = texts(lines@).take(i + 1);
                    assert(s1.drop_last() =~= texts(lines@).take(i as int));
                    if i == 0 {
                        assert(join_lines(texts(lines@).take(0)) =~= Seq::<char>::empty());
                    }
                }
                i = i + 1;
                assert(out@ =~= join_lines(texts(lines@).take(i as int)));
            }
            assert(texts(lines@).take(lines.len() as int) =~= texts(lines@));
            string_of(&out)
        },
    };
    let pre = el("pre", no_attrs(), nodes1(XMLElem::Raw(raw)));
    el("code", no_attrs(), nodes1(pre))
}

fn execute_blockcode(attrs: &Vec<Attr>, loc: &Location) -> (r: Result<XMLElem, Error>)
    ensures
        same_result(r, blockcode_spec(attrs@, *loc)),
{
    let src = match crate::ast::get_str(attrs, "src", loc) {
        Err(e) => {
            return Err(e);
        },
        Ok(s) => s,
    };
    let lang = match crate::ast::get_str(attrs, "lang", loc) {
        Err(e) => {
            return Err(e);
        },
        Ok(s) => s,
    };
    let code = dedent(src.as_str());
    let h = highlight(lang.as_str(), &code);
    let ghost hv = opt_view(h);
    assert(hv == highlighted(lang@, dedented(src@)));
    Ok(blockcode_markup(h, &code))
}

fn kind_of(name: &str) -> (r: u8)
    ensures
        r as int == cmd_kind(name@),
{
    if same_text(name, "p") {
        0
    } else if same_text(name, "line") {
        1
    } else if same_text(name, "address") {
        2
    } else if same_text(name, "n") {
        3
    } else if same_text(name, "code") {
        4
    } else if same_text(name, "link") {
        5
    } else if same_text(name, "img") {
        6
    } else if same_text(name, "iframe") {
        7
    } else if same_text(name, "blockcode") {
        8
    } else if same_text(name, "ul") {
        9
    } else if same_text(name, "section") {
        10
    } else if same_text(name, "figure") {
        11
    } else if same_text(name, "articles") {
        12
    } else if same_text(name, "article") {
        13
    } else if same_text(name, "index") {
        14
    } else {
        15
    }
}

pub open spec fn container_tag(k: int) -> Seq<char> {
    if k == 0 {
        "p"@
    } else if k == 1 {
        "span"@
    } else if k == 2 {
        "address"@
    } else if k == 3 {
        "div"@
    } else {
        "code"@
    }
}

fn container_tag_of(k: u8) -> (r: &'static str)
    ensures
        r@ == container_tag(k as int),
{
    if k == 0 {
        "p"
    } else if k == 1 {
        "span"
    } else if k == 2 {
        "address"
    } else if k == 3 {
        "div"
    } else {
        "code"
    }
}

impl<'a> Context<'a> {
    /// The same context at another location.
    pub fn fork_with_loc(&self, loc: Location) -> (r: Context<'a>)
        ensures
            r == with_loc(*self, loc),
    {
        Context {
            location: loc,
            level: self.level,
            hops: self.hops,
            prev: self.prev,
            next: self.next,
            titles: self.titles,
            docs: self.docs,
            sha256: self.sha256,
            path: self.path,
        }
    }

    fn fork_deeper(&self) -> (r: Context<'a>)
        ensures
            r == deeper(*self),
    {
        Context {
            location: self.location.copy(),
            level: if self.level < usize::MAX { self.level + 1 } else { self.level },
            hops: self.hops,
            prev: self.prev,
            next: self.next,
            titles: self.titles,
            docs: self.docs,
            sha256: self.sha256,
            path: self.path,
        }
    }

    fn fork_hop(&self) -> (r: Context<'a>)
        requires
            self.hops > 0,
        ensures
            r == hop(*self),
    {
        Context {
            location: self.location.copy(),
            level: self.level,
            hops: self.hops - 1,
            prev: self.prev,
            next: self.next,
            titles: self.titles,
            docs: self.docs,
            sha256: self.sha256,
            path: self.path,
        }
    }
}

proof fn lemma_elems_prefix_err(ctx: Context, s: Seq<(TextElem, Location)>, i: int, e: ErrorV)
    requires
        0 <= i <= s.len(),
        render_elems(ctx, s.take(i)) == Err::<Seq<Markup>, ErrorV>(e),
    ensures
        render_elems(ctx, s) == Err::<Seq<Markup>, ErrorV>(e),
    decreases s.len() - i,
{
    if i < s.len() {
        assert(s.take(i + 1).drop_last() =~= s.take(i));
        lemma_elems_prefix_err(ctx, s, i + 1, e);
    } else {
        assert(s.take(i) =~= s);
    }
}

proof fn lemma_items_prefix_err(ctx: Context, s: Seq<(TextElem, Location)>, i: int, e: ErrorV)
    requires
        0 <= i <= s.len(),
        render_items(ctx, s.take(i)) == Err::<Seq<Markup>, ErrorV>(e),
    ensures
        render_items(ctx, s) == Err::<Seq<Markup>, ErrorV>(e),
    decreases s.len() - i,
{
    if i < s.len() {
        assert(s.take(i + 1).drop_last() =~= s.take(i));
        lemma_items_prefix_err(ctx, s, i + 1, e);
    } else {
        assert(s.take(i) =~= s);
    }
}

proof fn lemma_entries_prefix_err(ctx: Context, s: Seq<Heading>, i: int, e: ErrorV)
    requires
        0 <= i <= s.len(),
        render_entries(ctx, s.take(i)) == Err::<Seq<Markup>, ErrorV>(e),
    ensures
        render_entries(ctx, s) == Err::<Seq<Markup>, ErrorV>(e),
    decreases s.len() - i,
{
    if i < s.len() {
        assert(s.take(i + 1).drop_last() =~= s.take(i));
        lemma_entries_prefix_err(ctx, s, i + 1, e);
    } else {
        assert(s.take(i) =~= s);
    }
}

proof fn lemma_figure_prefix_err(s: Seq<(TextElem, Location)>, loc: Location, i: int, e: ErrorV)
    requires
        0 <= i <= s.len(),
        figure_images(s.take(i), loc) == Err::<Seq<Markup>, ErrorV>(e),
    ensures
        figure_images(s, loc) == Err::<Seq<Markup>, ErrorV>(e),
    decreases s.len() - i,
{
    if i < s.len() {
        assert(s.take(i + 1).drop_last() =~= s.take(i));
        lemma_figure_prefix_err(s, loc, i + 1, e);
    } else {
        assert(s.take(i) =~= s);
    }
}

/// An inline literal: a span styled as code.
fn process_inlinestr(s: &String) -> (r: XMLElem)
    ensures
        r@ == elem("span"@, seq![("class"@, "inline-code"@)], seq![Markup::Text(s@)]),
{
    el("span", attrs1(kv("class", "inline-code")), nodes1(XMLElem::Text(s.clone())))
}

/// Renders inline content.
fn process_text(ctx: &Context, v: &Vec<(TextElem, Location)>) -> (r: Result<Vec<XMLElem>, Error>)
    ensures
        same_results(r, render_elems(*ctx, v@)),
    decreases ctx.hops, 0int, v@, 0int,
{
    let mut out: Vec<XMLElem> = Vec::new();
    let mut i: usize = 0;
    assert(v@.take(0) =~= Seq::<(TextElem, Location)>::empty());
    while i < v.len()
        invariant
            i <= v.len(),
            render_elems(*ctx, v@.take(i as int)) == Ok::<Seq<Markup>, ErrorV>(nodes_view(out@)),
        decreases v.len() - i,
    {
        proof {
            assert(v@.take(i + 1).drop_last() =~= v@.take(i as int));
            assert(decreases_to!(v@ => v@[i as int]));
        }
        let sub = ctx.fork_with_loc(v[i].1.copy());
        match process_text_elem(&sub, &v[i].0) {
            Err(e) => {
                proof {
                    lemma_elems_prefix_err(*ctx, v@, i + 1, e@);
                }
                return Err(e);
            },
            Ok(x) => {
                push_node(&mut out, x);
            },
        }
        i = i + 1;
    }
    assert(v@.take(v.len() as int) =~= v@);
    Ok(out)
}

/// Renders one element of inline content.
fn process_text_elem(ctx: &Context, e: &TextElem) -> (r: Result<XMLElem, Error>)
    ensures
        same_result(r, render_elem(*ctx, *e)),
    decreases ctx.hops, 0int, *e, 0int,
{
    match e {
        TextElem::Plain(s) => Ok(XMLElem::Text(s.clone())),
        TextElem::Str(s) => Ok(process_inlinestr(s)),
        TextElem::Cmd(c) => process_cmd(ctx, c),
    }
}

/// Renders the title of the document that an index entry names.
fn process_entry_title(ctx: &Context, h: &Heading) -> (r: Result<Vec<XMLElem>, Error>)
    ensures
        same_results(r, render_entry_title(*ctx, *h)),
    decreases ctx.hops, 1int, *h, 0int,
{
    if h.doc < ctx.docs.len() {
        let d = &ctx.docs[h.doc];
        match crate::ast::get_text(&d.root.attrs, "title", &d.loc) {
            Err(e) => Err(e),
            Ok(t) => process_text(ctx, t),
        }
    } else {
        Err(Error::ProcessError { loc: ctx.location.copy(), desc: "an index entry names no document".to_owned() })
    }
}

/// The items of a directory listing.
fn process_entries(ctx: &Context, hs: &Vec<Heading>) -> (r: Result<Vec<XMLElem>, Error>)
    ensures
        same_results(r, render_entries(*ctx, hs@)),
    decreases ctx.hops, 1int, hs@, 0int,
{
    let mut out: Vec<XMLElem> = Vec::new();
    let mut i: usize = 0;
    assert(hs@.take(0) =~= Seq::<Heading>::empty());
    while i < hs.len()
        invariant
            i <= hs.len(),
            render_entries(*ctx, hs@.take(i as int)) == Ok::<Seq<Markup>, ErrorV>(nodes_view(out@)),
        decreases hs.len() - i,
    {
        proof {
            assert(hs@.take(i + 1).drop_last() =~= hs@.take(i as int));
            assert(decreases_to!(hs@ => hs@[i as int]));
        }
        match process_entry_title(ctx, &hs[i]) {
            Err(e) => {
                proof {
                    lemma_entries_prefix_err(*ctx, hs@, i + 1, e@);
                }
                return Err(e);
            },
            Ok(t) => {
                let href = resolve(hs[i].path.as_str(), ctx.path.as_str());
                let a = el("a", attrs1(kv("href", href.as_str())), t);
                push_node(&mut out, el("li", no_attrs(), nodes1(a)));
            },
        }
        i = i + 1;
    }
    assert(hs@.take(hs.len() as int) =~= hs@);
    Ok(out)
}

/// The items of a list.
fn process_items(ctx: &Context, v: &Vec<(TextElem, Location)>) -> (r: Result<Vec<XMLElem>, Error>)
    ensures
        same_results(r, render_items(*ctx, v@)),
    decreases ctx.hops, 0int, v@, 0int,
{
    let mut out: Vec<XMLElem> = Vec::new();
    let mut i: usize = 0;
    assert(v@.take(0) =~= Seq::<(TextElem, Location)>::empty());
    while i < v.len()
        invariant
            i <= v.len(),
            render_items(*ctx, v@.take(i as int)) == Ok::<Seq<Markup>, ErrorV>(nodes_view(out@)),
        decreases v.len() - i,
    {
        proof {
            assert(v@.take(i + 1).drop_last() =~= v@.take(i as int));
            assert(decreases_to!(v@ => v@[i as int]));
        }
        let item = match &v[i].0 {
            TextElem::Cmd(c) => {
                if same_text(c.name.as_str(), "n") {
                    match process_text(ctx, &c.inner) {
                        Err(e) => Err(e),
                        Ok(ys) => Ok(el("li", no_attrs(), ys)),
                    }
                } else {
                    match process_cmd(&ctx.fork_with_loc(v[i].1.copy()), c) {
                        Err(e) => Err(e),
                        Ok(y) => Ok(el("li", no_attrs(), nodes1(y))),
                    }
                }
            },
            _ => Err(
                Error::ProcessError {
                    loc: ctx.location.copy(),
                    desc: "\\ul can only have commands as child elements.".to_owned(),
                },
            ),
        };
        match item {
            Err(e) => {
                proof {
                    lemma_items_prefix_err(*ctx, v@, i + 1, e@);
                }
                return Err(e);
            },
            Ok(x) => {
                push_node(&mut out, x);
            },
        }
        i = i + 1;
    }
    assert(v@.take(v.len() as int) =~= v@);
    Ok(out)
}

/// Renders one command.
pub fn process_cmd(ctx: &Context, c: &Cmd) -> (r: Result<XMLElem, Error>)
    ensures
        same_result(r, render_cmd(*ctx, *c)),
    decreases ctx.hops, 0int, *c, 1int,
{
    let k = kind_of(c.name.as_str());
    if k <= 4 {
        execute_container(ctx, c, k)
    } else if k == 5 {
        execute_link(ctx, c)
    } else if k == 6 {
        execute_img(&c.attrs, &ctx.location)
    } else if k == 7 {
        Ok(execute_iframe(&c.attrs))
    } else if k == 8 {
        execute_blockcode(&c.attrs, &ctx.location)
    } else if k == 9 {
        execute_ul(ctx, c)
    } else if k == 10 {
        execute_section(ctx, c)
    } else if k == 11 {
        execute_figure(ctx, c)
    } else if k == 12 {
        execute_articles(ctx, c)
    } else if k == 13 {
        execute_article(ctx, c)
    } else if k == 14 {
        execute_index(ctx, c)
    } else {
        Err(Error::NoSuchCmd { loc: ctx.location.copy(), name: c.name.clone() })
    }
}

fn execute_container(ctx: &Context, c: &Cmd, k: u8) -> (r: Result<XMLElem, Error>)
    requires
        k <= 4,
        cmd_kind(c.name@) == k as int,
    ensures
        same_result(r, render_cmd(*ctx, *c)),
    decreases ctx.hops, 0int, *c, 0int,
{
    match process_text(ctx, &c.inner) {
        Err(e) => Err(e),
        Ok(xs) => Ok(el(container_tag_of(k), no_attrs(), xs)),
    }
}

fn execute_link(ctx: &Context, c: &Cmd) -> (r: Result<XMLElem, Error>)
    requires
        cmd_kind(c.name@) == 5,
    ensures
        same_result(r, render_cmd(*ctx, *c)),
    decreases ctx.hops, 0int, *c, 0int,
{
    let url = match crate::ast::get_str(&c.attrs, "url", &ctx.location) {
        Err(e) => {
            return Err(e);
        },
        Ok(u) => u,
    };
    match process_text(ctx, &c.inner) {
        Err(e) => Err(e),
        Ok(xs) => Ok(el("a", attrs1(kv("href", url.as_str())), xs)),
    }
}

fn opt_str_attr<'a>(attrs: &'a Vec<Attr>, name: &str) -> (r: Option<&'a String>)
    ensures
        match r {
            Some(s) => opt_str(attrs@, name@) == Some(s@),
            None => opt_str(attrs@, name@).is_none(),
        },
{
    match crate::ast::find_attr(attrs, name) {
        Some(a) => match &a.value {
            Value::Str(s) => Some(s),
            _ => None,
        },
        None => None,
    }
}

fn opt_int_attr(attrs: &Vec<Attr>, name: &str) -> (r: Option<String>)
    ensures
        opt_view(r) == opt_int(attrs@, name@),
{
    match crate::ast::find_attr(attrs, name) {
        Some(a) => match &a.value {
            Value::Int(i) => Some(int_to_string(*i)),
            _ => None,
        },
        None => None,
    }
}

fn push_opt(v: &mut Vec<(String, String)>, name: &str, val: Option<String>)
    ensures
        attrs_view(final(v)@) == attrs_view(old(v)@) + opt_pair(name@, opt_view(val)),
{
    match val {
        Some(s) => {
            let ghost s0 = s@;
            v.push((name.to_owned(), s));
            assert(attrs_view(v@) =~= attrs_view(old(v)@) + seq![(name@, s0)]);
        },
        None => {
            assert(attrs_view(v@) =~= attrs_view(old(v)@) + Seq::<(Seq<char>, Seq<char>)>::empty());
        },
    }
}

fn copy_opt(o: Option<&String>) -> (r: Option<String>)
    ensures
        match o {
            Some(s) => r == Some(*s),
            None => r.is_none(),
        },
{
    match o {
        Some(s) => Some(s.clone()),
        None => None,
    }
}

/// An inline frame with whichever of its attributes are present.
fn execute_iframe(attrs: &Vec<Attr>) -> (r: XMLElem)
    ensures
        r@ == Markup::Single("iframe"@, iframe_attrs(attrs@)),
{
    let mut v: Vec<(String, String)> = Vec::new();
    assert(attrs_view(v@) =~= Seq::<(Seq<char>, Seq<char>)>::empty());
    push_opt(&mut v, "width", opt_int_attr(attrs, "width"));
    push_opt(&mut v, "height", opt_int_attr(attrs, "height"));
    push_opt(&mut v, "frameborder", opt_int_attr(attrs, "frameborder"));
    push_opt(&mut v, "style", copy_opt(opt_str_attr(attrs, "style")));
    push_opt(&mut v, "scrolling", copy_opt(opt_str_attr(attrs, "scrolling")));
    push_opt(&mut v, "src", copy_opt(opt_str_attr(attrs, "src")));
    assert(attrs_view(v@) =~= iframe_attrs(attrs@));
    single("iframe", v)
}

/// An image.
fn execute_img(attrs: &Vec<Attr>, loc: &Location) -> (r: Result<XMLElem, Error>)
    ensures
        same_result(r, img_spec(attrs@, *loc)),
{
    let url = match crate::ast::get_str(attrs, "url", loc) {
        Err(e) => {
            return Err(e);
        },
        Ok(u) => u,
    };
    let alt = match crate::ast::get_str(attrs, "alt", loc) {
        Err(e) => {
            return Err(e);
        },
        Ok(a) => a,
    };
    match opt_str_attr(attrs, "classes") {
        Some(cl) => Ok(single("img", attrs3(kv("src", url.as_str()), kv("class", cl.as_str()), kv("alt", alt.as_str())))),
        None => Ok(single("img", attrs2(kv("src", url.as_str()), kv("alt", alt.as_str())))),
    }
}

fn execute_ul(ctx: &Context, c: &Cmd) -> (r: Result<XMLElem, Error>)
    requires
        cmd_kind(c.name@) == 9,
    ensures
        same_result(r, render_cmd(*ctx, *c)),
    decreases ctx.hops, 0int, *c, 0int,
{
    match process_items(ctx, &c.inner) {
        Err(e) => Err(e),
        Ok(xs) => Ok(el("ul", no_attrs(), xs)),
    }
}

fn execute_section(ctx: &Context, c: &Cmd) -> (r: Result<XMLElem, Error>)
    requires
        cmd_kind(c.name@) == 10,
    ensures
        same_result(r, render_cmd(*ctx, *c)),
    decreases ctx.hops, 0int, *c, 0int,
{
    let t = match crate::ast::get_text(&c.attrs, "title", &ctx.location) {
        Err(e) => {
            return Err(e);
        },
        Ok(t) => t,
    };
    proof {
        lemma_text_attr_decreases(*c, "title"@, ctx.location);
    }
    let child = ctx.fork_deeper();
    let ts = match process_text(&child, t) {
        Err(e) => {
            return Err(e);
        },
        Ok(ts) => ts,
    };
    let bs = match process_text(&child, &c.inner) {
        Err(e) => {
            return Err(e);
        },
        Ok(bs) => bs,
    };
    let mut tag: Vec<char> = Vec::new();
    tag.push('h');
    let mut digits = chars_of(int_to_string_usize(ctx.level).as_str());
    tag.append(&mut digits);
    let tag = string_of(&tag);
    let heading = XMLElem::WithElem(tag, no_attrs(), ts);
    let mut children = nodes1(el("header", no_attrs(), nodes1(heading)));
    append_nodes(&mut children, bs);
    Ok(el("section", no_attrs(), children))
}

fn int_to_string_usize(n: usize) -> (r: String)
    ensures
        r@ == decimal(n as int),
{
    string_of(&decimal_of(n as u64))
}

fn figure_images_exec(v: &Vec<(TextElem, Location)>, loc: &Location) -> (r: Result<Vec<XMLElem>, Error>)
    ensures
        same_results(r, figure_images(v@, *loc)),
{
    let mut out: Vec<XMLElem> = Vec::new();
    let mut i: usize = 0;
    assert(v@.take(0) =~= Seq::<(TextElem, Location)>::empty());
    while i < v.len()
        invariant
            i <= v.len(),
            figure_images(v@.take(i as int), *loc) == Ok::<Seq<Markup>, ErrorV>(nodes_view(out@)),
        decreases v.len() - i,
    {
        proof {
            assert(v@.take(i + 1).drop_last() =~= v@.take(i as int));
        }
        let item = match &v[i].0 {
            TextElem::Cmd(c) => {
                if same_text(c.name.as_str(), "img") {
                    execute_img(&c.attrs, &v[i].1)
                } else {
                    Err(Error::ProcessError { loc: loc.copy(), desc: "\\figure can only have \\img as child element.".to_owned() })
                }
            },
            _ => Err(Error::ProcessError { loc: loc.copy(), desc: "\\figure can only have \\img as child element.".to_owned() }),
        };
        match item {
            Err(e) => {
                proof {
                    lemma_figure_prefix_err(v@, *loc, i + 1, e@);
                }
                return Err(e);
            },
            Ok(x) => {
                push_node(&mut out, x);
            },
        }
        i = i + 1;
    }
    assert(v@.take(v.len() as int) =~= v@);
    Ok(out)
}

fn execute_figure(ctx: &Context, c: &Cmd) -> (r: Result<XMLElem, Error>)
    requires
        cmd_kind(c.name@) == 11,
    ensures
        same_result(r, render_cmd(*ctx, *c)),
    decreases ctx.hops, 0int, *c, 0int,
{
    let cap = match crate::ast::get_text(&c.attrs, "caption", &ctx.location) {
        Err(e) => {
            return Err(e);
        },
        Ok(t) => t,
    };
    proof {
        lemma_text_attr_decreases(*c, "caption"@, ctx.location);
    }
    let imgs = match figure_images_exec(&c.inner, &ctx.location) {
        Err(e) => {
            return Err(e);
        },
        Ok(x) => x,
    };
    let cs = match process_text(ctx, cap) {
        Err(e) => {
            return Err(e);
        },
        Ok(x) => x,
    };
    let ghost iv = nodes_view(imgs@);
    let ghost cv = nodes_view(cs@);
    let mut inner = nodes1(el("div", attrs1(kv("class", "images")), imgs));
    push_node(&mut inner, el("figurecaption", no_attrs(), cs));
    assert(nodes_view(inner@) =~= seq![elem("div"@, seq![("class"@, "images"@)], iv), elem("figurecaption"@, seq![], cv)]);
    match opt_str_attr(&c.attrs, "id") {
        Some(id) => Ok(el("figure", attrs1(kv("id", id.as_str())), inner)),
        None => Ok(el("figure", no_attrs(), inner)),
    }
}

fn find_group_exec<'a>(titles: &'a Vec<Group>, dir: &str) -> (r: Option<&'a Group>)
    ensures
        match r {
            Some(g) => find_group(titles@, dir@) == Some(*g),
            None => find_group(titles@, dir@).is_none(),
        },
{
    let mut i: usize = 0;
    assert(titles@.skip(0) =~= titles@);
    while i < titles.len()
        invariant
            i <= titles.len(),
            find_group(titles@, dir@) == find_group(titles@.skip(i as int), dir@),
        decreases titles.len() - i,
    {
        assert(titles@.skip(i as int).drop_first() =~= titles@.skip(i + 1));
        if same_text(titles[i].dir.as_str(), dir) {
            return Some(&titles[i]);
        }
        i = i + 1;
    }
    None
}

fn execute_articles(ctx: &Context, c: &Cmd) -> (r: Result<XMLElem, Error>)
    requires
        cmd_kind(c.name@) == 12,
    ensures
        same_result(r, render_cmd(*ctx, *c)),
    decreases ctx.hops, 0int, *c, 0int,
{
    let dir = match crate::ast::get_str(&c.attrs, "dir", &ctx.location) {
        Err(e) => {
            return Err(e);
        },
        Ok(d) => d,
    };
    match find_group_exec(ctx.titles, dir.as_str()) {
        None => Ok(el("ul", no_attrs(), Vec::new())),
        Some(g) => {
            if ctx.hops == 0 {
                return Err(cycle(&ctx.location));
            }
            match process_entries(&ctx.fork_hop(), &g.articles) {
                Err(e) => Err(e),
                Ok(xs) => Ok(el("ul", no_attrs(), xs)),
            }
        },
    }
}

fn cycle(loc: &Location) -> (r: Error)
    ensures
        r@ == cycle_error(*loc),
{
    Error::ProcessError { loc: loc.copy(), desc: "titles refer to each other without end".to_owned() }
}

pub open spec fn optv(o: Option<Vec<XMLElem>>) -> Option<Seq<Markup>> {
    match o {
        Some(v) => Some(nodes_view(v@)),
        None => None,
    }
}

fn copy_attrs(a: &Vec<(String, String)>) -> (r: Vec<(String, String)>)
    ensures
        attrs_view(r@) == attrs_view(a@),
{
    let mut out: Vec<(String, String)> = Vec::new();
    let mut i: usize = 0;
    while i < a.len()
        invariant
            i <= a.len(),
            out@ == a@.take(i as int),
        decreases a.len() - i,
    {
        out.push((a[i].0.clone(), a[i].1.clone()));
        i = i + 1;
        assert(out@ =~= a@.take(i as int));
    }
    assert(a@.take(a.len() as int) =~= a@);
    assert(out@ =~= a@);
    out
}

/// A copy of a node.
pub fn copy_node(x: &XMLElem) -> (r: XMLElem)
    ensures
        r@ == x@,
    decreases x, 1int,
{
    match x {
        XMLElem::WithElem(t, a, ch) => XMLElem::WithElem(t.clone(), copy_attrs(a), copy_nodes(ch)),
        XMLElem::Single(t, a) => XMLElem::Single(t.clone(), copy_attrs(a)),
        XMLElem::Text(s) => XMLElem::Text(s.clone()),
        XMLElem::Raw(s) => XMLElem::Raw(s.clone()),
    }
}

/// A copy of a sequence of nodes.
pub fn copy_nodes(v: &Vec<XMLElem>) -> (r: Vec<XMLElem>)
    ensures
        nodes_view(r@) == nodes_view(v@),
    decreases v, 0int,
{
    let mut out: Vec<XMLElem> = Vec::new();
    let mut i: usize = 0;
    while i < v.len()
        invariant
            i <= v.len(),
            nodes_view(out@) == nodes_view(v@.take(i as int)),
        decreases v.len() - i,
    {
        proof {
            assert(decreases_to!(v => v@[i as int]));
            lemma_nodes_view_push(v@.take(i as int), v@[i as int]);
            assert(v@.take(i + 1) =~= v@.take(i as int).push(v@[i as int]));
        }
        push_node(&mut out, copy_node(&v[i]));
        i = i + 1;
    }
    assert(v@.take(v.len() as int) =~= v@);
    out
}

/// The head elements that every page shares, for the page at `path`.
pub fn header_common(path: &str) -> (r: Vec<XMLElem>)
    ensures
        nodes_view(r@) == header_common_spec(path@),
{
    let mut v: Vec<XMLElem> = Vec::new();
    push_node(&mut v, single("link", attrs3(kv("href", resolve("index.css", path).as_str()), kv("rel", "stylesheet"), kv("type", "text/css"))));
    push_node(&mut v, single("link", attrs3(kv("href", resolve("syntect.css", path).as_str()), kv("rel", "stylesheet"), kv("type", "text/css"))));
    push_node(&mut v, single("link", attrs3(kv("href", resolve("res/favicon.ico", path).as_str()), kv("rel", "icon"), kv("type", "image/vnd.microsoft.icon"))));
    push_node(&mut v, meta_node("name", "twitter:card", "summary"));
    push_node(&mut v, meta_node("name", "twitter:site", "@namachan10777"));
    push_node(&mut v, meta_node("name", "twitter:creator", "@namachan10777"));
    push_node(&mut v, meta_node("property", "og:url", crate::text::concat("https://namachan10777.dev/", path).as_str()));
    push_node(&mut v, meta_node("property", "og:site_name", "namachan10777"));
    push_node(&mut v, meta_node("property", "og:image", "https://namachan10777.dev/res/icon.jpg"));
    push_node(&mut v, meta_node("name", "twitter:image", "https://namachan10777.dev/res/icon.jpg"));
    assert(nodes_view(v@) =~= header_common_spec(path@));
    v
}

fn page_exec(prefix: &str, head: Vec<XMLElem>, body: Vec<XMLElem>) -> (r: XMLElem)
    ensures
        r@ == page(prefix@, nodes_view(head@), nodes_view(body@)),
{
    let mut ch = nodes1(el("head", attrs1(kv("prefix", prefix)), head));
    push_node(&mut ch, el("body", no_attrs(), nodes1(el("div", attrs1(kv("id", "root")), body))));
    let r = el("html", attrs2(kv("xmlns", "http://www.w3.org/1999/xhtml"), kv("lang", "ja")), ch);
    assert(nodes_view(ch@) =~= seq![
        elem("head"@, seq![("prefix"@, prefix@)], nodes_view(head@)),
        elem("body"@, seq![], seq![elem("div"@, seq![("id"@, "root"@)], nodes_view(body@))]),
    ]);
    r
}

fn index_page_exec(path: &str, ts: Vec<XMLElem>, bs: Vec<XMLElem>) -> (r: XMLElem)
    ensures
        r@ == index_page(path@, nodes_view(ts@), nodes_view(bs@)),
{
    let tstr = extract_strings(&ts);
    let mut head = header_common(path);
    let ghost hc = nodes_view(head@);
    push_node(&mut head, meta_node("property", "og:title", tstr.as_str()));
    push_node(&mut head, meta_node("name", "twitter:title", tstr.as_str()));
    push_node(&mut head, meta_node("property", "og:type", "website"));
    push_node(&mut head, meta_node("property", "og:description", "about me"));
    push_node(&mut head, meta_node("name", "description", "about me"));
    push_node(&mut head, meta_node("name", "twitter:description", "about me"));
    push_node(&mut head, el("title", no_attrs(), copy_nodes(&ts)));
    let ghost t = texts_of(nodes_view(ts@));
    assert(nodes_view(head@) =~= hc + seq![
        meta("property"@, "og:title"@, t),
        meta("name"@, "twitter:title"@, t),
        meta("property"@, "og:type"@, "website"@),
        meta("property"@, "og:description"@, "about me"@),
        meta("name"@, "description"@, "about me"@),
        meta("name"@, "twitter:description"@, "about me"@),
        elem("title"@, seq![], nodes_view(ts@)),
    ]);
    let mut body = nodes1(el("header", no_attrs(), nodes1(el("h1", no_attrs(), ts))));
    append_nodes(&mut body, bs);
    page_exec("og: http://ogp.me/ns# article: http://ogp.me/ns/article#", head, body)
}

fn nav_exec(h: &Option<Heading>, t: Option<Vec<XMLElem>>, path: &str, class: &str) -> (r: Vec<XMLElem>)
    ensures
        nodes_view(r@) == nav_link(*h, optv(t), path@, class@),
{
    match (h, t) {
        (Some(h), Some(t)) => nodes1(el("a", attrs2(kv("href", resolve(h.path.as_str(), path).as_str()), kv("class", class)), t)),
        _ => {
            let v: Vec<XMLElem> = Vec::new();
            assert(nodes_view(v@) =~= Seq::<Markup>::empty());
            v
        },
    }
}

fn short_hash_exec(sha: &str) -> (r: String)
    ensures
        r@ == short_hash(sha@),
{
    let c = chars_of(sha);
    let lim: usize = if c.len() > 7 { 7 } else { c.len() };
    let mut out: Vec<char> = Vec::new();
    let mut i: usize = 0;
    while i < lim
        invariant
            i <= lim,
            lim <= c.len(),
            out@ == c@.take(i as int),
        decreases lim - i,
    {
        out.push(c[i]);
        i = i + 1;
        assert(out@ =~= c@.take(i as int));
    }
    assert(c@.len() <= 7 ==> c@.take(lim as int) =~= c@);
    string_of(&out)
}

fn article_page_exec(
    ctx: &Context,
    ts: Vec<XMLElem>,
    p: Option<Vec<XMLElem>>,
    x: Option<Vec<XMLElem>>,
    bs: Vec<XMLElem>,
) -> (r: XMLElem)
    ensures
        r@ == article_page(*ctx, nodes_view(ts@), optv(p), optv(x), nodes_view(bs@)),
{
    let path = ctx.path.as_str();
    let tstr = extract_strings(&ts);
    let bstr = extract_strings(&bs);
    let d = excerpt(bstr.as_str());
    let mut head = header_common(path);
    let ghost hc = nodes_view(head@);
    push_node(&mut head, el("title", no_attrs(), copy_nodes(&ts)));
    push_node(&mut head, meta_node("property", "og:title", tstr.as_str()));
    push_node(&mut head, meta_node("name", "twitter:title", tstr.as_str()));
    push_node(&mut head, meta_node("property", "og:type", "article"));
    push_node(&mut head, meta_node("property", "og:description", d.as_str()));
    push_node(&mut head, meta_node("name", "description", d.as_str()));
    push_node(&mut head, meta_node("name", "twitter:description", d.as_str()));
    let ghost t = texts_of(nodes_view(ts@));
    let ghost dv = excerpt_of(texts_of(nodes_view(bs@)));
    assert(nodes_view(head@) =~= hc + seq![
        elem("title"@, seq![], nodes_view(ts@)),
        meta("property"@, "og:title"@, t),
        meta("name"@, "twitter:title"@, t),
        meta("property"@, "og:type"@, "article"@),
        meta("property"@, "og:description"@, dv),
        meta("name"@, "description"@, dv),
        meta("name"@, "twitter:description"@, dv),
    ]);
    let ghost tsv = nodes_view(ts@);
    let mut hdr = nodes1(el("a", attrs1(kv("href", resolve("index.html", path).as_str())), nodes1(XMLElem::Text("戻る".to_owned()))));
    push_node(&mut hdr, el("div", attrs1(kv("class", "hash")), nodes1(XMLElem::Text(short_hash_exec(ctx.sha256.as_str())))));
    push_node(&mut hdr, el("h1", no_attrs(), ts));
    assert(nodes_view(hdr@) =~= seq![
        elem("a"@, seq![("href"@, resolved("index.html"@, path@))], seq![Markup::Text("戻る"@)]),
        elem("div"@, seq![("class"@, "hash"@)], seq![Markup::Text(short_hash(ctx.sha256@))]),
        elem("h1"@, seq![], tsv),
    ]);
    let ghost bsv = nodes_view(bs@);
    let mut body = nodes1(el("header", no_attrs(), hdr));
    append_nodes(&mut body, bs);
    let mut foot = nav_exec(ctx.prev, p, path, "prev-article");
    let nx = nav_exec(ctx.next, x, path, "next-article");
    append_nodes(&mut foot, nx);
    push_node(&mut body, el("footer", no_attrs(), foot));
    assert(nodes_view(body@) =~= seq![elem("header"@, seq![], nodes_view(hdr@))] + bsv + seq![elem("footer"@, seq![], nodes_view(foot@))]);
    page_exec("og: http://ogp.me/ns# object: http://ogp.me/ns/object#", head, body)
}

fn execute_article(ctx: &Context, c: &Cmd) -> (r: Result<XMLElem, Error>)
    requires
        cmd_kind(c.name@) == 13,
    ensures
        same_result(r, render_cmd(*ctx, *c)),
    decreases ctx.hops, 0int, *c, 0int,
{
    let t = match crate::ast::get_text(&c.attrs, "title", &ctx.location) {
        Err(e) => {
            return Err(e);
        },
        Ok(t) => t,
    };
    proof {
        lemma_text_attr_decreases(*c, "title"@, ctx.location);
    }
    let ts = match process_text(ctx, t) {
        Err(e) => {
            return Err(e);
        },
        Ok(x) => x,
    };
    let p = match ctx.prev {
        None => None,
        Some(h) => {
            if ctx.hops == 0 {
                return Err(cycle(&ctx.location));
            }
            match process_entry_title(&ctx.fork_hop(), h) {
                Err(e) => {
                    return Err(e);
                },
                Ok(t) => Some(t),
            }
        },
    };
    let x = match ctx.next {
        None => None,
        Some(h) => {
            if ctx.hops == 0 {
                return Err(cycle(&ctx.location));
            }
            match process_entry_title(&ctx.fork_hop(), h) {
                Err(e) => {
                    return Err(e);
                },
                Ok(t) => Some(t),
            }
        },
    };
    let bs = match process_text(ctx, &c.inner) {
        Err(e) => {
            return Err(e);
        },
        Ok(x) => x,
    };
    Ok(article_page_exec(ctx, ts, p, x, bs))
}

fn execute_index(ctx: &Context, c: &Cmd) -> (r: Result<XMLElem, Error>)
    requires
        cmd_kind(c.name@) == 14,
    ensures
        same_result(r, render_cmd(*ctx, *c)),
    decreases ctx.hops, 0int, *c, 0int,
{
    let t = match crate::ast::get_text(&c.attrs, "title", &ctx.location) {
        Err(e) => {
            return Err(e);
        },
        Ok(t) => t,
    };
    proof {
        lemma_text_attr_decreases(*c, "title"@, ctx.location);
    }
    let ts = match process_text(ctx, t) {
        Err(e) => {
            return Err(e);
        },
        Ok(x) => x,
    };
    let bs = match process_text(ctx, &c.inner) {
        Err(e) => {
            return Err(e);
        },
        Ok(x) => x,
    };
    Ok(index_page_exec(ctx.path.as_str(), ts, bs))
}

/// A rendered document: an XML declaration and the root element.
pub struct XML {
    pub version: String,
    pub encoding: String,
    /// The name of the root element.
    pub root: String,
    pub body: XMLElem,
}

/// Renders the document whose root command is `cmd`.
pub fn root(ctx: &Context, cmd: &Cmd) -> (r: Result<XML, Error>)
    ensures
        match r {
            Ok(x) => {
                &&& x.version@ == "1.0"@
                &&& x.encoding@ == "UTF-8"@
                &&& x.root@ == "html"@
                &&& render_cmd(*ctx, *cmd) == Ok::<Markup, ErrorV>(x.body@)
            },
            Err(e) => render_cmd(*ctx, *cmd) == Err::<Markup, ErrorV>(e@),
        },
{
    match process_cmd(ctx, cmd) {
        Err(e) => Err(e),
        Ok(body) => Ok(XML { version: "1.0".to_owned(), encoding: "UTF-8".to_owned(), root: "html".to_owned(), body }),
    }
}

/// A command whose name is outside the fixed set fails with `NoSuchCmd`,
/// carrying its name and the current location.
pub proof fn law_unknown_command(ctx: Context, c: Cmd)
    requires
        cmd_kind(c.name@) == 15,
    ensures
        render_cmd(ctx, c) == Err::<Markup, ErrorV>(ErrorV::NoSuchCmd { loc: ctx.location, name: c.name@ }),
{
}

pub open spec fn is_img_cmd(e: TextElem) -> bool {
    e matches TextElem::Cmd(c) && c.name@ == "img"@
}

/// A figure whose caption is present and whose children before child `j`
/// are valid images fails with the figure error when child `j` is anything
/// but an `img` command: no child is dropped.
pub proof fn law_figure_children(ctx: Context, c: Cmd, j: int)
    requires
        cmd_kind(c.name@) == 11,
        text_attr(c.attrs@, "caption"@, ctx.location) is Ok,
        0 <= j < c.inner@.len(),
        forall|k: int| 0 <= k < j ==> is_img_cmd(#[trigger] c.inner@[k].0) && img_spec(
            c.inner@[k].0->Cmd_0.attrs@,
            c.inner@[k].1,
        ) is Ok,
        !is_img_cmd(c.inner@[j].0),
    ensures
        render_cmd(ctx, c) == Err::<Markup, ErrorV>(figure_error(ctx.location)),
{
    let s = c.inner@;
    lemma_figure_ok_prefix(s, ctx.location, j);
    assert(s.take(j + 1).drop_last() =~= s.take(j));
    lemma_figure_prefix_err(s, ctx.location, j + 1, figure_error(ctx.location));
}

proof fn lemma_figure_ok_prefix(s: Seq<(TextElem, Location)>, loc: Location, j: int)
    requires
        0 <= j <= s.len(),
        forall|k: int| 0 <= k < j ==> is_img_cmd(#[trigger] s[k].0) && img_spec(s[k].0->Cmd_0.attrs@, s[k].1) is Ok,
    ensures
        figure_images(s.take(j), loc) is Ok,
    decreases j,
{
    if j > 0 {
        lemma_figure_ok_prefix(s, loc, j - 1);
        assert(s.take(j).drop_last() =~= s.take(j - 1));
        assert(is_img_cmd(s[j - 1].0));
    } else {
        assert(s.take(0) =~= Seq::<(TextElem, Location)>::empty());
    }
}

} // verus!
