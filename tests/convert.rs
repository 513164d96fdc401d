use engine::analysis::{Document, Group, Heading};
use engine::ast::{Attr, Cmd, Error, Location, TextElem, Value, XMLElem};
use engine::convert::{
    blockcode_markup, dedent, excerpt, extract_string, int_to_string, process_cmd, root, Context,
};

fn loc(line: usize) -> Location {
    Location { path: "doc.tml".to_string(), line, column: 1 }
}

fn plain(s: &str) -> (TextElem, Location) {
    (TextElem::Plain(s.to_string()), loc(2))
}

fn attr(name: &str, value: Value) -> Attr {
    Attr { name: name.to_string(), value, loc: loc(3) }
}

fn cmd(name: &str, attrs: Vec<Attr>, inner: Vec<(TextElem, Location)>) -> Cmd {
    Cmd { name: name.to_string(), attrs, inner }
}

struct Site {
    prev: Option<Heading>,
    next: Option<Heading>,
    titles: Vec<Group>,
    docs: Vec<Document>,
    sha: String,
    path: String,
}

fn site() -> Site {
    let doc = |p: &str, t: &str| Document {
        path: p.to_string(),
        root: cmd("article", vec![attr("title", Value::Text(vec![plain(t)]))], vec![]),
        loc: loc(1),
        src: String::new(),
    };
    Site {
        prev: Some(Heading { path: "article/a2.tml".to_string(), doc: 1 }),
        next: None,
        titles: vec![Group {
            dir: "article".to_string(),
            articles: vec![
                Heading { path: "article/a1.tml".to_string(), doc: 0 },
                Heading { path: "article/a2.tml".to_string(), doc: 1 },
            ],
        }],
        docs: vec![doc("article/a1.tml", "First"), doc("article/a2.tml", "Second")],
        sha: "0123456789abcdef".to_string(),
        path: "article/a1.tml".to_string(),
    }
}

fn ctx(s: &Site) -> Context<'_> {
    Context {
        location: loc(1),
        level: 1,
        hops: s.docs.len(),
        prev: &s.prev,
        next: &s.next,
        titles: &s.titles,
        docs: &s.docs,
        sha256: &s.sha,
        path: &s.path,
    }
}

fn children(x: &XMLElem) -> &Vec<XMLElem> {
    match x {
        XMLElem::WithElem(_, _, ch) => ch,
        _ => panic!("not an element"),
    }
}

fn tag(x: &XMLElem) -> &str {
    match x {
        XMLElem::WithElem(t, _, _) | XMLElem::Single(t, _) => t,
        _ => panic!("no tag"),
    }
}

fn attrs(x: &XMLElem) -> &Vec<(String, String)> {
    match x {
        XMLElem::WithElem(_, a, _) | XMLElem::Single(_, a) => a,
        _ => panic!("no attributes"),
    }
}

fn pairs(v: &[(&str, &str)]) -> Vec<(String, String)> {
    v.iter().map(|(a, b)| (a.to_string(), b.to_string())).collect()
}

#[test]
fn dedent_strips_blank_ends_and_common_indent() {
    assert_eq!(dedent("\n  foo\n    bar\n"), vec!["foo", "  bar"]);
    assert_eq!(dedent("  \n\t\n"), Vec::<String>::new());
    assert_eq!(dedent(""), Vec::<String>::new());
    assert_eq!(dedent("    a\n\n  b"), vec!["  a", "", "b"]);
    assert_eq!(dedent("x\n  y"), vec!["x", "  y"]);
}

#[test]
fn excerpt_cuts_long_bodies() {
    let long = "あ".repeat(70);
    assert_eq!(excerpt(&long), "あ".repeat(64) + "……");
    assert_eq!(excerpt("  short body \n"), "short body……");
    let exact = "b".repeat(64);
    assert_eq!(excerpt(&exact), exact.clone() + "……");
    let mut spaced = " ".repeat(60);
    spaced.push_str("abcdefgh");
    assert_eq!(excerpt(&spaced), "abcd……");
}

#[test]
fn decimal_strings() {
    assert_eq!(int_to_string(0), "0");
    assert_eq!(int_to_string(560), "560");
    assert_eq!(int_to_string(-42), "-42");
    assert_eq!(int_to_string(i64::MIN), "-9223372036854775808");
}

#[test]
fn unknown_command_fails() {
    let s = site();
    match process_cmd(&ctx(&s), &cmd("blink", vec![], vec![])) {
        Err(Error::NoSuchCmd { loc, name }) => {
            assert_eq!(name, "blink");
            assert_eq!(loc.line, 1);
        },
        _ => panic!("expected NoSuchCmd"),
    }
}

#[test]
fn figure_rejects_non_image_children() {
    let s = site();
    let img = cmd("img", vec![attr("url", Value::Str("a.png".into())), attr("alt", Value::Str("a".into()))], vec![]);
    let fig = cmd(
        "figure",
        vec![attr("caption", Value::Text(vec![plain("cap")]))],
        vec![(TextElem::Cmd(img), loc(4)), plain("stray text")],
    );
    match process_cmd(&ctx(&s), &fig) {
        Err(Error::ProcessError { desc, .. }) => assert_eq!(desc, "\\figure can only have \\img as child element."),
        _ => panic!("expected the figure error"),
    }
    let p = cmd("p", vec![], vec![]);
    let fig = cmd("figure", vec![attr("caption", Value::Text(vec![]))], vec![(TextElem::Cmd(p), loc(4))]);
    assert!(matches!(process_cmd(&ctx(&s), &fig), Err(Error::ProcessError { .. })));
}

#[test]
fn figure_renders_images_and_caption() {
    let s = site();
    let img = cmd("img", vec![attr("url", Value::Str("a.png".into())), attr("alt", Value::Str("A".into()))], vec![]);
    let fig = cmd(
        "figure",
        vec![attr("caption", Value::Text(vec![plain("cap")])), attr("id", Value::Str("f1".into()))],
        vec![(TextElem::Cmd(img), loc(4))],
    );
    let x = process_cmd(&ctx(&s), &fig).ok().unwrap();
    assert_eq!(tag(&x), "figure");
    assert_eq!(attrs(&x), &pairs(&[("id", "f1")]));
    let ch = children(&x);
    assert_eq!(tag(&ch[0]), "div");
    assert_eq!(attrs(&children(&ch[0])[0]), &pairs(&[("src", "a.png"), ("alt", "A")]));
    assert_eq!(tag(&ch[1]), "figurecaption");
    assert_eq!(extract_string(&ch[1]), "cap");
}

#[test]
fn missing_attribute_fails() {
    let s = site();
    match process_cmd(&ctx(&s), &cmd("link", vec![], vec![plain("x")])) {
        Err(Error::MissingAttribute { name, .. }) => assert_eq!(name, "url"),
        _ => panic!("expected a missing url"),
    }
    match process_cmd(&ctx(&s), &cmd("img", vec![attr("url", Value::Int(3))], vec![])) {
        Err(Error::InvalidAttributeType { name, .. }) => assert_eq!(name, "url"),
        _ => panic!("expected a url of the wrong type"),
    }
}

#[test]
fn iframe_emits_present_attributes_in_order() {
    let s = site();
    let f = cmd(
        "iframe",
        vec![
            attr("src", Value::Str("https://example.com".into())),
            attr("height", Value::Int(315)),
            attr("width", Value::Int(560)),
            attr("style", Value::Int(1)),
        ],
        vec![],
    );
    let x = process_cmd(&ctx(&s), &f).ok().unwrap();
    assert_eq!(tag(&x), "iframe");
    assert_eq!(attrs(&x), &pairs(&[("width", "560"), ("height", "315"), ("src", "https://example.com")]));
}

#[test]
fn sections_nest_heading_levels() {
    let s = site();
    let inner = cmd("section", vec![attr("title", Value::Text(vec![plain("Inner")]))], vec![plain("body")]);
    let outer = cmd("section", vec![attr("title", Value::Text(vec![plain("Outer")]))], vec![(TextElem::Cmd(inner), loc(5))]);
    let x = process_cmd(&ctx(&s), &outer).ok().unwrap();
    let header = &children(&x)[0];
    assert_eq!(tag(&children(header)[0]), "h1");
    let nested = &children(&x)[1];
    assert_eq!(tag(&children(&children(nested)[0])[0]), "h2");
    assert_eq!(extract_string(&x), "OuterInnerbody");
}

#[test]
fn lists_flatten_n_items() {
    let s = site();
    let n = cmd("n", vec![], vec![plain("one")]);
    let p = cmd("p", vec![], vec![plain("two")]);
    let ul = cmd("ul", vec![], vec![(TextElem::Cmd(n), loc(6)), (TextElem::Cmd(p), loc(7))]);
    let x = process_cmd(&ctx(&s), &ul).ok().unwrap();
    let items = children(&x);
    assert_eq!(items.len(), 2);
    assert!(matches!(&children(&items[0])[0], XMLElem::Text(t) if t == "one"));
    assert_eq!(tag(&children(&items[1])[0]), "p");
    let bad = cmd("ul", vec![], vec![plain("loose")]);
    assert!(matches!(process_cmd(&ctx(&s), &bad), Err(Error::ProcessError { .. })));
}

#[test]
fn inline_literals_are_code_spans() {
    let s = site();
    let p = cmd("p", vec![], vec![(TextElem::Str("x + 1".into()), loc(2))]);
    let x = process_cmd(&ctx(&s), &p).ok().unwrap();
    let span = &children(&x)[0];
    assert_eq!(tag(span), "span");
    assert_eq!(attrs(span), &pairs(&[("class", "inline-code")]));
    assert_eq!(extract_string(span), "x + 1");
}

#[test]
fn articles_lists_directory_in_index_order() {
    let s = site();
    let c = cmd("articles", vec![attr("dir", Value::Str("article".into()))], vec![]);
    let x = process_cmd(&ctx(&s), &c).ok().unwrap();
    let items = children(&x);
    assert_eq!(items.len(), 2);
    let a = &children(&items[1])[0];
    assert_eq!(attrs(a), &pairs(&[("href", "a2.tml")]));
    assert_eq!(extract_string(a), "Second");
    let c = cmd("articles", vec![attr("dir", Value::Str("nothing".into()))], vec![]);
    let x = process_cmd(&ctx(&s), &c).ok().unwrap();
    assert!(children(&x).is_empty());
}

#[test]
fn article_page_has_badge_navigation_and_excerpt() {
    let s = site();
    let body = cmd("p", vec![], vec![plain("  Hello world ")]);
    let a = cmd("article", vec![attr("title", Value::Text(vec![plain("First")]))], vec![(TextElem::Cmd(body), loc(8))]);
    let xml = root(&ctx(&s), &a).ok().unwrap();
    assert_eq!(xml.version, "1.0");
    assert_eq!(xml.encoding, "UTF-8");
    let html = &xml.body;
    assert_eq!(tag(html), "html");
    let head = &children(html)[0];
    let metas: Vec<&Vec<(String, String)>> = children(head).iter().map(attrs).collect();
    assert!(metas.contains(&&pairs(&[("property", "og:description"), ("content", "Hello world……")])));
    assert!(metas.contains(&&pairs(&[("property", "og:type"), ("content", "article")])));
    assert!(metas.contains(&&pairs(&[("property", "og:url"), ("content", "https://namachan10777.dev/article/a1.tml")])));
    let root_div = &children(&children(html)[1])[0];
    let header = &children(root_div)[0];
    assert_eq!(attrs(&children(header)[0]), &pairs(&[("href", "../index.html")]));
    assert_eq!(extract_string(&children(header)[1]), "0123456");
    let footer = children(root_div).last().unwrap();
    assert_eq!(tag(footer), "footer");
    let links = children(footer);
    assert_eq!(links.len(), 1);
    assert_eq!(attrs(&links[0]), &pairs(&[("href", "a2.tml"), ("class", "prev-article")]));
    assert_eq!(extract_string(&links[0]), "Second");
}

#[test]
fn index_page_uses_website_type() {
    let s = site();
    let i = cmd("index", vec![attr("title", Value::Text(vec![plain("Home")]))], vec![plain("hi")]);
    let x = process_cmd(&ctx(&s), &i).ok().unwrap();
    let head = &children(&x)[0];
    let metas: Vec<&Vec<(String, String)>> = children(head).iter().map(attrs).collect();
    assert!(metas.contains(&&pairs(&[("property", "og:type"), ("content", "website")])));
    assert!(metas.contains(&&pairs(&[("property", "og:title"), ("content", "Home")])));
    assert_eq!(tag(children(head).last().unwrap()), "title");
}

#[test]
fn self_referring_titles_fail_instead_of_looping() {
    let mut s = site();
    s.docs[1].root.attrs[0] = attr(
        "title",
        Value::Text(vec![(TextElem::Cmd(cmd("articles", vec![attr("dir", Value::Str("article".into()))], vec![])), loc(9))]),
    );
    let c = cmd("articles", vec![attr("dir", Value::Str("article".into()))], vec![]);
    match process_cmd(&ctx(&s), &c) {
        Err(Error::ProcessError { desc, .. }) => assert_eq!(desc, "titles refer to each other without end"),
        _ => panic!("expected the cycle to be reported"),
    }
}

#[test]
fn blockcode_without_known_language_is_verbatim() {
    let lines = vec!["fn main() {".to_string(), "}".to_string()];
    let x = blockcode_markup(None, &lines);
    assert_eq!(tag(&x), "code");
    let pre = &children(&x)[0];
    assert!(matches!(&children(pre)[0], XMLElem::Raw(r) if r == "fn main() {\n}"));
    let s = site();
    let b = cmd(
        "blockcode",
        vec![attr("src", Value::Str("\n    a\n      b\n".into())), attr("lang", Value::Str("no-such-language".into()))],
        vec![],
    );
    let x = process_cmd(&ctx(&s), &b).ok().unwrap();
    assert!(matches!(&children(&children(&x)[0])[0], XMLElem::Raw(r) if r == "a\n  b"));
}

#[test]
fn blockcode_highlights_known_language() {
    let s = site();
    let b = cmd(
        "blockcode",
        vec![attr("src", Value::Str("fn main() {}".into())), attr("lang", Value::Str("rs".into()))],
        vec![],
    );
    let x = process_cmd(&ctx(&s), &b).ok().unwrap();
    match &children(&children(&x)[0])[0] {
        XMLElem::Raw(r) => {
            assert!(r.contains("<span"));
            assert_ne!(r, "fn main() {}");
        },
        _ => panic!("expected raw markup"),
    }
}
