//! Line wrapping of article titles for preview images.
//!
//! A title is cut into tokens; each token boundary gets a cost from the
//! classes of the tokens beside it, and tokens are packed greedily into
//! lines of a fixed width in UTF-8 bytes.
use vstd::prelude::*;
use vstd::utf8::encode_utf8;
use crate::text::concat;

verus! {

/// The width of a line, in UTF-8 bytes.
pub const W: usize = 40;

/// The size of the font that lines are drawn in.
pub const FONT_SIZE: usize = 30;

/// Separator punctuation.
pub const SEP_RE: &'static str = "[、,\\.。．…‥，・]";

/// White space.
pub const SPACE_RE: &'static str = "[ 　\\n\\r\\t]";

/// Opening brackets.
pub const OPEN_RE: &'static str = "[\\(\\[\\{【「（]";

/// Closing brackets.
pub const CLOSE_RE: &'static str = "[\\)\\]\\}】」）]";

/// A line that holds only blanks.
pub const BLANK_RE: &'static str = "^[ \\t\\r\\n]*$";

/// The characters of the class that each of the patterns above names.
pub open spec fn class_chars(pattern: Seq<char>) -> Set<char> {
    if pattern == SEP_RE@ {
        set!['、', ',', '.', '。', '．', '…', '‥', '，', '・']
    } else if pattern == SPACE_RE@ {
        set![' ', '　', '\n', '\r', '\t']
    } else if pattern == OPEN_RE@ {
        set!['(', '[', '{', '【', '「', '（']
    } else if pattern == CLOSE_RE@ {
        set![')', ']', '}', '】', '」', '）']
    } else {
        set![' ', '\t', '\r', '\n']
    }
}

pub open spec fn is_known_pattern(pattern: Seq<char>) -> bool {
    pattern == SEP_RE@ || pattern == SPACE_RE@ || pattern == OPEN_RE@ || pattern == CLOSE_RE@
        || pattern == BLANK_RE@
}

/// Whether `text` matches one of the patterns above: for the blank-line
/// pattern, every character is a blank; for the others, some character is
/// in the class.
pub open spec fn pattern_matches(pattern: Seq<char>, text: Seq<char>) -> bool {
    if pattern == BLANK_RE@ {
        forall|i: int| 0 <= i < text.len() ==> class_chars(pattern).contains(#[trigger] text[i])
    } else {
        exists|i: int| 0 <= i < text.len() && class_chars(pattern).contains(#[trigger] text[i])
    }
}

/// Relies on regex's `Regex::new` and `Regex::is_match`: a bracketed class
/// matches where some character of `text` is in it; `^[...]*$` matches where
/// every character is.
#[verifier::external_body]
pub(crate) fn regex_is_match(pattern: &str, text: &str) -> (r: bool)
    requires
        is_known_pattern(pattern@),
    ensures
        r == pattern_matches(pattern@, text@),
{
    regex::Regex::new(pattern).unwrap().is_match(text)
}

/// The tokens that lindera, with its bundled IPADIC dictionary, cuts `s` into.
pub uninterp spec fn ipadic_tokens(s: Seq<char>) -> Seq<Seq<char>>;

/// Relies on lindera's `Tokenizer::tokenize` in normal mode with the bundled
/// dictionary: the token texts, in order.
#[verifier::external_body]
fn tokenize(text: &str) -> (r: Vec<String>)
    ensures
        r@.map_values(|t: String| t@) == ipadic_tokens(text@),
{
    let mut tokenizer = lindera::tokenizer::Tokenizer::new("normal", "");
    tokenizer.tokenize(text).iter().map(|t| t.text.to_owned()).collect()
}

/// The costs around a token of a class: (before it, after it).
pub open spec fn token_class_costs(tok: Seq<char>) -> Option<(int, int)> {
    if pattern_matches(SEP_RE@, tok) {
        Some((-6, 6))
    } else if pattern_matches(SPACE_RE@, tok) {
        Some((6, 6))
    } else if pattern_matches(OPEN_RE@, tok) {
        Some((6, -6))
    } else if pattern_matches(CLOSE_RE@, tok) {
        Some((-6, 6))
    } else {
        None
    }
}

/// The cost of a break before token `i`: what the token itself asks for,
/// else what the token before it asks for after itself, else 0.
pub open spec fn cost_before(tokens: Seq<Seq<char>>, i: int) -> int {
    match token_class_costs(tokens[i]) {
        Some(c) => c.0,
        None => if i > 0 {
            match token_class_costs(tokens[i - 1]) {
                Some(c) => c.1,
                None => 0,
            }
        } else {
            0
        },
    }
}

/// The length of `s` in UTF-8 bytes, as `str::len` reports it.
pub open spec fn byte_len(s: Seq<char>) -> int {
    encode_utf8(s).len() as usize as int
}

/// The finished lines and the open line after packing the first `i` tokens.
pub open spec fn pack(tokens: Seq<Seq<char>>, i: nat) -> (Seq<Seq<char>>, Seq<char>)
    decreases i,
{
    if i == 0 {
        (Seq::<Seq<char>>::empty(), Seq::<char>::empty())
    } else {
        let (lines, line) = pack(tokens, (i - 1) as nat);
        let tok = tokens[i - 1];
        if byte_len(line) + byte_len(tok) + cost_before(tokens, i - 1) > W as int {
            (lines.push(line), tok)
        } else {
            (lines, line + tok)
        }
    }
}

/// The lines that the tokens are packed into.
pub open spec fn wrapped(tokens: Seq<Seq<char>>) -> Seq<Seq<char>> {
    let (lines, line) = pack(tokens, tokens.len());
    if line.len() > 0 {
        lines.push(line)
    } else {
        lines
    }
}

pub open spec fn texts(v: Seq<String>) -> Seq<Seq<char>> {
    v.map_values(|t: String| t@)
}

fn class_costs(tok: &str) -> (r: Option<(i64, i64)>)
    ensures
        match r {
            Some(c) => token_class_costs(tok@) == Some((c.0 as int, c.1 as int)),
            None => token_class_costs(tok@).is_none(),
        },
{
    if regex_is_match(SEP_RE, tok) {
        Some((-6, 6))
    } else if regex_is_match(SPACE_RE, tok) {
        Some((6, 6))
    } else if regex_is_match(OPEN_RE, tok) {
        Some((6, -6))
    } else if regex_is_match(CLOSE_RE, tok) {
        Some((-6, 6))
    } else {
        None
    }
}

/// Packs the tokens greedily into lines of `W` bytes: a token starts a new
/// line where the open line, the token and the cost of a break before it
/// together exceed `W`.
pub fn split_tokens(tokens: &Vec<String>) -> (r: Vec<String>)
    ensures
        texts(r@) == wrapped(texts(tokens@)),
{
    let ghost toks = texts(tokens@);
    let n = tokens.len();
    let mut costs: Vec<i64> = Vec::new();
    let mut i: usize = 0;
    while i < n
        invariant
            n == tokens.len(),
            toks == texts(tokens@),
            i <= n,
            costs.len() == i,
            forall|k: int| 0 <= k < i ==> #[trigger] costs@[k] as int == cost_before(toks, k),
        decreases n - i,
    {
        let own = class_costs(tokens[i].as_str());
        let c: i64 = match own {
            Some(p) => p.0,
            None => if i > 0 {
                match class_costs(tokens[i - 1].as_str()) {
                    Some(p) => p.1,
                    None => 0,
                }
            } else {
                0
            },
        };
        costs.push(c);
        i = i + 1;
    }
    let mut lines: Vec<String> = Vec::new();
    let mut line = String::new();
    let mut i: usize = 0;
    while i < n
        invariant
            n == tokens.len(),
            toks == texts(tokens@),
            i <= n,
            costs.len() == n,
            forall|k: int| 0 <= k < n ==> #[trigger] costs@[k] as int == cost_before(toks, k),
            pack(toks, i as nat) == (texts(lines@), line@),
        decreases n - i,
    {
        let tok = &tokens[i];
        let total: i128 = line.as_str().len() as i128 + tok.as_str().len() as i128 + costs[i] as i128;
        proof {
            assert(toks[i as int] == tok@);
            assert(((i + 1) as nat - 1) as nat == i as nat);
            assert(total == byte_len(line@) + byte_len(tok@) + cost_before(toks, i as int));
        }
        if total > W as i128 {
            let ghost prev = lines@;
            let finished = line;
            lines.push(finished);
            line = tok.clone();
            assert(texts(lines@) =~= texts(prev).push(finished@));
        } else {
            line = concat(line.as_str(), tok.as_str());
        }
        i = i + 1;
    }
    if !line.as_str().is_empty() {
        let ghost prev = lines@;
        let finished = line;
        lines.push(finished);
        assert(texts(lines@) =~= texts(prev).push(finished@));
    }
    lines
}

/// The lines that the title `text_ja` is wrapped into.
pub fn calc_split(text_ja: &str) -> (r: Vec<String>)
    ensures
        texts(r@) == wrapped(ipadic_tokens(text_ja@)),
{
    let tokens = tokenize(text_ja);
    split_tokens(&tokens)
}

} // verus!
