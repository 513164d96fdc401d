//! Relative links between documents of the site.
//!
//! A path is a string of segments separated by `/` (`article/a1.tml`). The
//! link from one document to another climbs out of the directories of the
//! source that the target does not share, then descends into the target.
use vstd::prelude::*;
use crate::text::{chars_of, string_of, same_text, split_on, split_chars, views, lemma_split_on_nonempty};

verus! {

/// The segments of a path, split on every `/`.
pub open spec fn split_path(s: Seq<char>) -> Seq<Seq<char>> {
    split_on(s, '/')
}

/// The segments joined back together with `/`.
pub open spec fn join_path(segs: Seq<Seq<char>>) -> Seq<char>
    decreases segs.len(),
{
    if segs.len() == 0 {
        Seq::<char>::empty()
    } else if segs.len() == 1 {
        segs[0]
    } else {
        join_path(segs.drop_last()) + seq!['/'] + segs.last()
    }
}

/// `n` copies of `../`.
pub open spec fn climbs(n: nat) -> Seq<char>
    decreases n,
{
    if n == 0 {
        Seq::<char>::empty()
    } else {
        climbs((n - 1) as nat) + seq!['.', '.', '/']
    }
}

/// The number of leading segments that two paths share.
pub open spec fn common_prefix_len(a: Seq<Seq<char>>, b: Seq<Seq<char>>) -> nat
    decreases a.len(),
{
    if a.len() == 0 || b.len() == 0 || a[0] != b[0] {
        0
    } else {
        1 + common_prefix_len(a.drop_first(), b.drop_first())
    }
}

/// The last segment of a path: its file name.
pub open spec fn file_name(p: Seq<char>) -> Seq<char> {
    split_path(p).last()
}

/// The relative link from the document at `from` to the one at `target`.
///
/// A document links to itself by its file name. Otherwise, with `k` the
/// number of segments of `from` below the deepest directory that both paths
/// share, the link climbs `k - 1` directories (none when `k` is 0) and then
/// names the segments of `target` below that directory.
pub open spec fn resolved(target: Seq<char>, from: Seq<char>) -> Seq<char> {
    if target == from {
        file_name(from)
    } else {
        let t = split_path(target);
        let f = split_path(from);
        let c = common_prefix_len(t, f);
        let k = f.len() - c;
        climbs(if k >= 1 { (k - 1) as nat } else { 0 }) + join_path(t.subrange(c as int, t.len() as int))
    }
}

proof fn lemma_common_prefix_step(a: Seq<Seq<char>>, b: Seq<Seq<char>>, i: int)
    requires
        0 <= i < a.len(),
        i < b.len(),
        a[i] == b[i],
    ensures
        common_prefix_len(a.skip(i), b.skip(i)) == 1 + common_prefix_len(a.skip(i + 1), b.skip(i + 1)),
{
    assert(a.skip(i).drop_first() =~= a.skip(i + 1));
    assert(b.skip(i).drop_first() =~= b.skip(i + 1));
}

/// The relative link from `from` to `target`.
pub fn resolve_link(target: &str, from: &str) -> (r: String)
    ensures
        r@ == resolved(target@, from@),
{
    let tc = chars_of(target);
    let fc = chars_of(from);
    let f = split_chars(&fc, '/');
    proof {
        lemma_split_on_nonempty(fc@, '/');
    }
    if same_text(target, from) {
        let last = &f[f.len() - 1];
        let mut name: Vec<char> = Vec::new();
        let mut j: usize = 0;
        while j < last.len()
            invariant
                j <= last.len(),
                name@ == last@.take(j as int),
            decreases last.len() - j,
        {
            name.push(last[j]);
            j = j + 1;
            assert(name@ =~= last@.take(j as int));
        }
        assert(last@.take(last.len() as int) =~= last@);
        return string_of(&name);
    }
    let t = split_chars(&tc, '/');
    let mut c: usize = 0;
    assert(views(t@).skip(0) =~= views(t@));
    assert(views(f@).skip(0) =~= views(f@));
    while c < t.len() && c < f.len() && same_vec(&t[c], &f[c])
        invariant
            c <= t.len(),
            c <= f.len(),
            common_prefix_len(views(t@), views(f@)) == c + common_prefix_len(
                views(t@).skip(c as int),
                views(f@).skip(c as int),
            ),
        decreases t.len() - c,
    {
        proof {
            lemma_common_prefix_step(views(t@), views(f@), c as int);
        }
        c = c + 1;
    }
    proof {
        if c < t.len() && c < f.len() {
            assert(views(t@).skip(c as int)[0] == views(t@)[c as int]);
            assert(views(f@).skip(c as int)[0] == views(f@)[c as int]);
        }
    }
    let k = f.len() - c;
    let mut out: Vec<char> = Vec::new();
    let mut n: usize = 0;
    let climb = if k >= 1 { k - 1 } else { 0 };
    while n < climb
        invariant
            n <= climb,
            out@ == climbs(n as nat),
        decreases climb - n,
    {
        out.push('.');
        out.push('.');
        out.push('/');
        n = n + 1;
        assert(out@ =~= climbs(n as nat));
    }
    let ghost base = out@;
    let mut j: usize = c;
    while j < t.len()
        invariant
            c <= j <= t.len(),
            base == climbs(climb as nat),
            out@ == base + join_path(views(t@).subrange(c as int, j as int)),
        decreases t.len() - j,
    {
        let ghost before = out@;
        if j > c {
            out.push('/');
        }
        let seg = &t[j];
        let mut m: usize = 0;
        let ghost mid = out@;
        while m < seg.len()
            invariant
                m <= seg.len(),
                out@ == mid + seg@.take(m as int),
            decreases seg.len() - m,
        {
            out.push(seg[m]);
            m = m + 1;
            assert(out@ =~= mid + seg@.take(m as int));
        }
        assert(seg@.take(seg.len() as int) =~= seg@);
        proof {
            let s1 = views(t@).subrange(c as int, j + 1);
            assert(s1.drop_last() =~= views(t@).subrange(c as int, j as int));
            assert(s1.last() == seg@);
            if j == c {
                assert(s1.len() == 1);
                assert(join_path(views(t@).subrange(c as int, j as int)) =~= Seq::<char>::empty());
            }
        }
        j = j + 1;
        assert(out@ =~= base + join_path(views(t@).subrange(c as int, j as int)));
    }
    string_of(&out)
}

/// Whether two character vectors are equal.
fn same_vec(a: &Vec<char>, b: &Vec<char>) -> (r: bool)
    ensures
        r == (a@ == b@),
{
    if a.len() != b.len() {
        return false;
    }
    let mut i: usize = 0;
    while i < a.len()
        invariant
            a.len() == b.len(),
            i <= a.len(),
            forall|j: int| 0 <= j < i ==> a@[j] == b@[j],
        decreases a.len() - i,
    {
        if a[i] != b[i] {
            return false;
        }
        i = i + 1;
    }
    assert(a@ =~= b@);
    true
}

/// The relative link from `from` to `target`, as a string.
pub fn resolve(target: &str, from: &str) -> (r: String)
    ensures
        r@ == resolved(target@, from@),
{
    resolve_link(target, from)
}

/// A document links to itself by its own file name.
pub proof fn law_resolve_self(p: Seq<char>)
    ensures
        resolved(p, p) == file_name(p),
{
}

} // verus!
