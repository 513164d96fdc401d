use engine::layout::{calc_split, split_tokens};

#[test]
fn test_calc_split() {
    let src = [
        "日本国民は、正当に選挙された国会における代表者を通じて行動し、",
        "われらとわれらの子孫のために、諸国民との協和による成果と、",
        "わが国全土にわたつて自由のもたらす恵沢を確保し、",
        "政府の行為によつて再び戦争の惨禍が起ることのないやうにすることを決意し、",
        "ここに主権が国民に存することを宣言し、この憲法を確定する。",
    ]
    .join("");
    assert_eq!(
        calc_split(&src),
        vec![
            "日本国民は、正当に選挙され",
            "た国会における代表者",
            "を通じて行動し、われらと",
            "われらの子孫のために、",
            "諸国民との協和による成果と、",
            "わが国全土にわたつて自由の",
            "もたらす恵沢を確保し、",
            "政府の行為によつて再び戦争",
            "の惨禍が起ることのないやう",
            "にすることを決意し、",
            "ここに主権が国民に存する",
            "ことを宣言し、この憲法を",
            "確定する。"
        ]
    );
}

fn strings(v: &[&str]) -> Vec<String> {
    v.iter().map(|s| s.to_string()).collect()
}

#[test]
fn split_tokens_fills_lines_greedily() {
    // 20 + 20 bytes fit exactly; the next token opens a new line.
    let toks = strings(&["aaaaaaaaaaaaaaaaaaaa", "bbbbbbbbbbbbbbbbbbbb", "cc"]);
    assert_eq!(split_tokens(&toks), strings(&["aaaaaaaaaaaaaaaaaaaabbbbbbbbbbbbbbbbbbbb", "cc"]));
}

#[test]
fn split_tokens_breaks_early_after_separator() {
    // After a comma the next token costs +6: 30 + 5 + 6 > 40.
    let toks = strings(&["aaaaaaaaaaaaaaaaaaaaaaaaaaaaa", ",", "bbbbb"]);
    assert_eq!(split_tokens(&toks), strings(&["aaaaaaaaaaaaaaaaaaaaaaaaaaaaa,", "bbbbb"]));
}

#[test]
fn split_tokens_keeps_separator_on_line() {
    // A separator itself costs -6 before it: 40 + 1 - 6 <= 40.
    let toks = strings(&["aaaaaaaaaaaaaaaaaaaaaaaaaaaaaaaaaaaaaaaa", "。"]);
    assert_eq!(split_tokens(&toks), strings(&["aaaaaaaaaaaaaaaaaaaaaaaaaaaaaaaaaaaaaaaa。"]));
}

#[test]
fn split_tokens_opening_bracket_breaks_before() {
    // An opening bracket costs +6 before it: 36 + 3 + 6 > 40.
    let toks = strings(&["aaaaaaaaaaaaaaaaaaaaaaaaaaaaaaaaaaaa", "「", "b"]);
    assert_eq!(split_tokens(&toks), strings(&["aaaaaaaaaaaaaaaaaaaaaaaaaaaaaaaaaaaa", "「b"]));
}

#[test]
fn split_tokens_empty_and_oversized() {
    assert_eq!(split_tokens(&Vec::new()), Vec::<String>::new());
    let long = "x".repeat(50);
    // A token wider than a line closes the empty open line first.
    assert_eq!(split_tokens(&strings(&[&long])), strings(&["", &long]));
}
