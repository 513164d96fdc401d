use engine::analysis::{analyze, calc_sha256, calc_sorted_titles, prevs_and_nexts, Document};
use engine::ast::{Attr, Cmd, Error, Location, TextElem, Value, ValueType};

fn loc(p: &str) -> Location {
    Location { path: p.to_string(), line: 1, column: 1 }
}

fn text(s: &str) -> Value {
    Value::Text(vec![(TextElem::Plain(s.to_string()), loc("t"))])
}

fn attr(name: &str, value: Value) -> Attr {
    Attr { name: name.to_string(), value, loc: loc("attr") }
}

fn article(path: &str, title: &str, date: &str) -> Document {
    Document {
        path: path.to_string(),
        root: Cmd {
            name: "article".to_string(),
            attrs: vec![attr("title", text(title)), attr("date", Value::Str(date.to_string()))],
            inner: vec![],
        },
        loc: loc(path),
        src: format!("source of {}", path),
    }
}

fn index(path: &str, title: &str) -> Document {
    Document {
        path: path.to_string(),
        root: Cmd { name: "index".to_string(), attrs: vec![attr("title", text(title))], inner: vec![] },
        loc: loc(path),
        src: String::new(),
    }
}

fn paths(docs: &[Document], g: &engine::analysis::Group) -> Vec<String> {
    g.articles.iter().map(|h| docs[h.doc].path.clone()).collect()
}

#[test]
fn titles_grouped_by_directory_in_date_order() {
    let docs = vec![
        article("article/c.tml", "C", "2020-03-01"),
        index("index.tml", "Top"),
        article("article/a.tml", "A", "2020-01-01"),
        article("diary/d.tml", "D", "2019-05-05"),
        article("article/b.tml", "B", "2020-02-01"),
    ];
    let groups = calc_sorted_titles(&docs).ok().unwrap();
    assert_eq!(groups.len(), 3);
    let art = groups.iter().find(|g| g.dir == "article").unwrap();
    assert_eq!(paths(&docs, art), vec!["article/a.tml", "article/b.tml", "article/c.tml"]);
    let root = groups.iter().find(|g| g.dir == "").unwrap();
    assert_eq!(paths(&docs, root), vec!["index.tml"]);
    let diary = groups.iter().find(|g| g.dir == "diary").unwrap();
    assert_eq!(paths(&docs, diary), vec!["diary/d.tml"]);
}

#[test]
fn equal_dates_keep_input_order() {
    let docs = vec![
        article("a/x.tml", "X", "2021-01-01"),
        article("a/y.tml", "Y", "2021-01-01"),
        article("a/z.tml", "Z", "2020-12-31"),
    ];
    let groups = calc_sorted_titles(&docs).ok().unwrap();
    assert_eq!(paths(&docs, &groups[0]), vec!["a/z.tml", "a/x.tml", "a/y.tml"]);
}

#[test]
fn non_articles_sort_first() {
    let docs = vec![article("p/a.tml", "A", "1960-01-01"), index("p/index.tml", "I")];
    let groups = calc_sorted_titles(&docs).ok().unwrap();
    assert_eq!(paths(&docs, &groups[0]), vec!["p/a.tml", "p/index.tml"]);
    let docs = vec![article("p/a.tml", "A", "2001-01-01"), index("p/index.tml", "I")];
    let groups = calc_sorted_titles(&docs).ok().unwrap();
    assert_eq!(paths(&docs, &groups[0]), vec!["p/index.tml", "p/a.tml"]);
}

#[test]
fn neighbours_form_a_chain() {
    let docs = vec![
        article("article/c.tml", "C", "2020-03-01"),
        article("article/a.tml", "A", "2020-01-01"),
        article("other/o.tml", "O", "2020-01-15"),
        article("article/b.tml", "B", "2020-02-01"),
    ];
    let (prevs, nexts, _) = prevs_and_nexts(&docs).ok().unwrap();
    // a -> b -> c by date; "prev" names the later one, "next" the earlier.
    assert_eq!(prevs[1].as_ref().unwrap().path, "article/b.tml");
    assert_eq!(prevs[3].as_ref().unwrap().path, "article/c.tml");
    assert!(prevs[0].is_none());
    assert!(nexts[1].is_none());
    assert_eq!(nexts[3].as_ref().unwrap().path, "article/a.tml");
    assert_eq!(nexts[0].as_ref().unwrap().path, "article/b.tml");
    assert!(prevs[2].is_none() && nexts[2].is_none());
    // Following the later links from the earliest visits all three once.
    let mut seen = vec![1usize];
    let mut cur = 1usize;
    while let Some(h) = &prevs[cur] {
        assert_ne!(h.doc, cur);
        cur = h.doc;
        seen.push(cur);
    }
    assert_eq!(seen, vec![1, 3, 0]);
}

#[test]
fn analyze_records_each_document() {
    let docs = vec![article("a/x.tml", "X", "2021-01-01"), article("a/y.tml", "Y", "2021-01-02")];
    let rep = analyze(&docs).ok().unwrap();
    assert_eq!(rep.per_article.len(), 2);
    assert_eq!(rep.per_article[0].path, "a/x.tml");
    assert_eq!(rep.per_article[0].prev.as_ref().unwrap().path, "a/y.tml");
    assert_eq!(rep.per_article[1].next.as_ref().unwrap().path, "a/x.tml");
    assert_eq!(rep.per_article[1].sha256, calc_sha256("a/y.tml", "source of a/y.tml"));
    let p = "a/y.tml".to_string();
    let ctx = rep.get_context(&docs, &p).unwrap();
    assert_eq!(ctx.level, 1);
    assert_eq!(ctx.hops, 2);
    assert_eq!(ctx.next.as_ref().unwrap().path, "a/x.tml");
    assert!(rep.get_context(&docs, &"nope".to_string()).is_none());
}

#[test]
fn fingerprint_known_values() {
    assert_eq!(calc_sha256("", ""), "e3b0c44298fc1c149afbf4c8996fb92427ae41e4649b934ca495991b7852b855");
    // Source bytes come first, then the path bytes.
    assert_eq!(calc_sha256("c", "ab"), "ba7816bf8f01cfea414140de5dae2223b00361a396177a9cb410ff61f20015ad");
}

#[test]
fn fingerprint_deterministic_and_sensitive() {
    let a = calc_sha256("x/a.tml", "hello");
    assert_eq!(a.len(), 64);
    assert!(a.chars().all(|c| c.is_ascii_hexdigit() && !c.is_ascii_uppercase()));
    assert_eq!(a, calc_sha256("x/a.tml", "hello"));
    assert_ne!(a, calc_sha256("x/b.tml", "hello"));
    assert_ne!(a, calc_sha256("x/a.tml", "hello!"));
}

#[test]
fn missing_title_is_reported() {
    let mut d = article("a/x.tml", "X", "2021-01-01");
    d.root.attrs.remove(0);
    match analyze(&vec![d]) {
        Err(Error::MissingAttribute { name, loc }) => {
            assert_eq!(name, "title");
            assert_eq!(loc.path, "a/x.tml");
        },
        _ => panic!("expected a missing title"),
    }
}

#[test]
fn date_of_wrong_type_is_reported() {
    let mut d = article("a/x.tml", "X", "2021-01-01");
    d.root.attrs[1] = attr("date", Value::Int(20210101));
    match analyze(&vec![d]) {
        Err(Error::InvalidAttributeType { name, expected, found, .. }) => {
            assert_eq!(name, "date");
            assert_eq!(expected, ValueType::Str);
            assert_eq!(found, ValueType::Int);
        },
        _ => panic!("expected a date of the wrong type"),
    }
}

#[test]
fn malformed_date_is_reported() {
    let docs = vec![article("a/ok.tml", "A", "2021-01-01"), article("a/x.tml", "X", "2021-13-45")];
    match analyze(&docs) {
        Err(Error::ProcessError { desc, .. }) => assert_eq!(desc, "invalid date format"),
        _ => panic!("expected an invalid date"),
    }
}

#[test]
fn missing_date_is_reported() {
    let mut d = article("a/x.tml", "X", "2021-01-01");
    d.root.attrs.remove(1);
    match analyze(&vec![d]) {
        Err(Error::MissingAttribute { name, .. }) => assert_eq!(name, "date"),
        _ => panic!("expected a missing date"),
    }
}
