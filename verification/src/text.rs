//! Trimming and splitting of short texts: room codes and origin lists.

use vstd::prelude::*;
use vstd::string::{StrSliceExecFns, StringExecFns};

verus! {

/// Characters with the Unicode `White_Space` property, which `str::trim`
/// removes.
pub open spec fn is_white_space(c: char) -> bool {
    ||| '\t' <= c <= '\r'
    ||| c == ' '
    ||| c == '\u{85}'
    ||| c == '\u{a0}'
    ||| c == '\u{1680}'
    ||| '\u{2000}' <= c <= '\u{200a}'
    ||| c == '\u{2028}'
    ||| c == '\u{2029}'
    ||| c == '\u{202f}'
    ||| c == '\u{205f}'
    ||| c == '\u{3000}'
}

/// `s` without its leading characters that satisfy `p`.
pub open spec fn trim_start_by(s: Seq<char>, p: spec_fn(char) -> bool) -> Seq<char>
    decreases s.len(),
{
    if s.len() > 0 && p(s[0]) {
        trim_start_by(s.drop_first(), p)
    } else {
        s
    }
}

/// `s` without its trailing characters that satisfy `p`.
pub open spec fn trim_end_by(s: Seq<char>, p: spec_fn(char) -> bool) -> Seq<char>
    decreases s.len(),
{
    if s.len() > 0 && p(s.last()) {
        trim_end_by(s.drop_last(), p)
    } else {
        s
    }
}

/// `s` without leading and trailing white space.
pub open spec fn trim(s: Seq<char>) -> Seq<char> {
    trim_end_by(trim_start_by(s, |c: char| is_white_space(c)), |c: char| is_white_space(c))
}

/// `s` without trailing slashes.
pub open spec fn trim_slashes(s: Seq<char>) -> Seq<char> {
    trim_end_by(s, |c: char| c == '/')
}

/// The pieces of `s` between commas, empty pieces included.
pub open spec fn split_commas(s: Seq<char>) -> Seq<Seq<char>>
    decreases s.len(),
{
    if s.len() == 0 {
        seq![seq![]]
    } else {
        let p = split_commas(s.drop_last());
        if s.last() == ',' {
            p.push(seq![])
        } else {
            p.update(p.len() - 1, p.last().push(s.last()))
        }
    }
}

proof fn lemma_trim_start_at(s: Seq<char>, p: spec_fn(char) -> bool, a: int)
    requires
        0 <= a <= s.len(),
        forall|j: int| 0 <= j < a ==> p(#[trigger] s[j]),
        a == s.len() || !p(s[a]),
    ensures
        trim_start_by(s, p) == s.subrange(a, s.len() as int),
    decreases a,
{
    if a == 0 {
        assert(s.subrange(0, s.len() as int) =~= s);
    } else {
        let t = s.drop_first();
        assert forall|j: int| 0 <= j < a - 1 implies p(#[trigger] t[j]) by {
            assert(t[j] == s[j + 1]);
        }
        if a - 1 < t.len() {
            assert(t[a - 1] == s[a]);
        }
        lemma_trim_start_at(t, p, a - 1);
        assert(t.subrange(a - 1, t.len() as int) =~= s.subrange(a, s.len() as int));
    }
}

proof fn lemma_trim_end_at(s: Seq<char>, p: spec_fn(char) -> bool, b: int)
    requires
        0 <= b <= s.len(),
        forall|j: int| b <= j < s.len() ==> p(#[trigger] s[j]),
        b == 0 || !p(s[b - 1]),
    ensures
        trim_end_by(s, p) == s.subrange(0, b),
    decreases s.len() - b,
{
    if b == s.len() {
        assert(s.subrange(0, b) =~= s);
    } else {
        let t = s.drop_last();
        assert forall|j: int| b <= j < t.len() implies p(#[trigger] t[j]) by {
            assert(t[j] == s[j]);
        }
        if b > 0 {
            assert(t[b - 1] == s[b - 1]);
        }
        assert(p(s[s.len() - 1]));
        lemma_trim_end_at(t, p, b);
        assert(t.subrange(0, b) =~= s.subrange(0, b));
    }
}

/// Is `c` white space?
fn white_space(c: char) -> (b: bool)
    ensures
        b == is_white_space(c),
{
    ('\t' <= c && c <= '\r') || c == ' ' || c == '\u{85}' || c == '\u{a0}' || c == '\u{1680}' || ('\u{2000}'
        <= c && c <= '\u{200a}') || c == '\u{2028}' || c == '\u{2029}' || c == '\u{202f}' || c
        == '\u{205f}' || c == '\u{3000}'
}

/// The bounds of `s[lo..hi]` without its leading and trailing white space.
fn trim_range(s: &str, lo: usize, hi: usize) -> (r: (usize, usize))
    requires
        lo <= hi <= s@.len(),
    ensures
        lo <= r.0 <= r.1 <= hi,
        s@.subrange(r.0 as int, r.1 as int) == trim(s@.subrange(lo as int, hi as int)),
{
    let ghost t = s@.subrange(lo as int, hi as int);
    let mut a = lo;
    while a < hi && white_space(s.get_char(a))
        invariant
            lo <= a <= hi <= s@.len(),
            forall|j: int| lo <= j < a ==> is_white_space(#[trigger] s@[j]),
        decreases hi - a,
    {
        a = a + 1;
    }
    proof {
        lemma_trim_start_at(t, |c: char| is_white_space(c), a - lo);
        assert(t.subrange(a - lo, t.len() as int) =~= s@.subrange(a as int, hi as int));
    }
    let ghost u = s@.subrange(a as int, hi as int);
    let mut b = hi;
    while b > a && white_space(s.get_char(b - 1))
        invariant
            lo <= a <= b <= hi <= s@.len(),
            forall|j: int| b <= j < hi ==> is_white_space(#[trigger] s@[j]),
        decreases b - a,
    {
        b = b - 1;
    }
    proof {
        assert forall|j: int| b - a <= j < u.len() implies is_white_space(#[trigger] u[j]) by {
            assert(u[j] == s@[j + a]);
        }
        if b > a {
            assert(u[b - a - 1] == s@[b - 1]);
        }
        lemma_trim_end_at(u, |c: char| is_white_space(c), b - a);
        assert(u.subrange(0, b - a) =~= s@.subrange(a as int, b as int));
    }
    (a, b)
}

/// The end of `s[a..b]` without its trailing slashes.
fn trim_slashes_range(s: &str, a: usize, b: usize) -> (e: usize)
    requires
        a <= b <= s@.len(),
    ensures
        a <= e <= b,
        s@.subrange(a as int, e as int) == trim_slashes(s@.subrange(a as int, b as int)),
{
    let ghost u = s@.subrange(a as int, b as int);
    let mut e = b;
    while e > a && s.get_char(e - 1) == '/'
        invariant
            a <= e <= b <= s@.len(),
            forall|j: int| e <= j < b ==> #[trigger] s@[j] == '/',
        decreases e - a,
    {
        e = e - 1;
    }
    proof {
        assert forall|j: int| e - a <= j < u.len() implies (|c: char| c == '/')(#[trigger] u[j]) by {
            assert(u[j] == s@[j + a]);
        }
        if e > a {
            assert(u[e - a - 1] == s@[e - 1]);
        }
        lemma_trim_end_at(u, |c: char| c == '/', e - a);
        assert(u.subrange(0, e - a) =~= s@.subrange(a as int, e as int));
    }
    e
}

/// `s` without leading and trailing white space.
pub fn trimmed(s: &str) -> (t: &str)
    ensures
        t@ == trim(s@),
{
    let n = s.unicode_len();
    let (a, b) = trim_range(s, 0, n);
    assert(s@.subrange(0, n as int) =~= s@);
    s.substring_char(a, b)
}

/// An origin as listed: trimmed of white space, then of trailing slashes.
pub open spec fn clean_origin(s: Seq<char>) -> Seq<char> {
    trim_slashes(trim(s))
}

/// The non-empty cleaned origins among `pieces`, in order.
pub open spec fn kept_origins(pieces: Seq<Seq<char>>) -> Seq<Seq<char>>
    decreases pieces.len(),
{
    if pieces.len() == 0 {
        seq![]
    } else {
        kept_origins(pieces.drop_last()) + if clean_origin(pieces.last()).len() > 0 {
            seq![clean_origin(pieces.last())]
        } else {
            seq![]
        }
    }
}

/// The origins allowed to call the agent: the local web UI, followed by the
/// non-empty entries of a comma-separated `extra` list, each trimmed of
/// white space and then of trailing slashes.
pub open spec fn allowed_origins_spec(extra: Option<Seq<char>>) -> Seq<Seq<char>> {
    seq!["http://localhost:3000"@, "http://127.0.0.1:3000"@] + match extra {
        Some(e) => kept_origins(split_commas(e)),
        None => seq![],
    }
}

/// The text of an optional string.
pub open spec fn opt_text(s: Option<&str>) -> Option<Seq<char>> {
    match s {
        Some(t) => Some(t@),
        None => None,
    }
}

/// The origins allowed to call the agent, given the comma-separated list of
/// extra origins, if one is configured.
pub fn allowed_origins(extra: Option<&str>) -> (v: Vec<String>)
    ensures
        v@.len() == allowed_origins_spec(opt_text(extra)).len(),
        forall|i: int| 0 <= i < v@.len() ==> (#[trigger] v@[i])@ == allowed_origins_spec(opt_text(extra))[i],
{
    let mut v: Vec<String> = Vec::new();
    v.push(String::from_str("http://localhost:3000"));
    v.push(String::from_str("http://127.0.0.1:3000"));
    let s = match extra {
        None => {
            return v;
        },
        Some(s) => s,
    };
    let n = s.unicode_len();
    let ghost mut done: Seq<Seq<char>> = seq![];
    let mut start: usize = 0;
    let mut i: usize = 0;
    assert(s@.take(0) =~= Seq::<char>::empty());
    assert(s@.subrange(0, 0) =~= Seq::<char>::empty());
    while i < n
        invariant
            n == s@.len(),
            start <= i <= n,
            split_commas(s@.take(i as int)) == done.push(s@.subrange(start as int, i as int)),
            v@.len() == 2 + kept_origins(done).len(),
            v@[0]@ == "http://localhost:3000"@,
            v@[1]@ == "http://127.0.0.1:3000"@,
            forall|k: int| 0 <= k < kept_origins(done).len() ==> (#[trigger] v@[k + 2])@ == kept_origins(done)[k],
        decreases n - i,
    {
        let c = s.get_char(i);
        proof {
            assert(s@.take(i + 1).drop_last() =~= s@.take(i as int));
            assert(s@.take(i + 1).last() == c);
        }
        if c == ',' {
            let (a, b) = trim_range(s, start, i);
            let e = trim_slashes_range(s, a, b);
            let ghost piece = s@.subrange(start as int, i as int);
            if e > a {
                v.push(String::from_str(s.substring_char(a, e)));
            }
            proof {
                assert(done.push(piece).drop_last() =~= done);
                assert(s@.subrange(a as int, e as int) == clean_origin(piece));
                let old_done = done;
                done = done.push(piece);
                assert(done.last() == piece);
                assert(kept_origins(done) == kept_origins(old_done) + if clean_origin(piece).len() > 0 {
                    seq![clean_origin(piece)]
                } else {
                    seq![]
                });
                assert forall|k: int| 0 <= k < kept_origins(done).len() implies (#[trigger] v@[k + 2])@
                    == kept_origins(done)[k] by {
                    if k < kept_origins(old_done).len() {
                        assert(kept_origins(done)[k] == kept_origins(old_done)[k]);
                    }
                }
                assert(s@.subrange(i + 1, i + 1) =~= Seq::<char>::empty());
            }
            start = i + 1;
        } else {
            proof {
                assert(s@.subrange(start as int, i + 1) =~= s@.subrange(start as int, i as int).push(c));
            }
        }
        i = i + 1;
    }
    let (a, b) = trim_range(s, start, n);
    let e = trim_slashes_range(s, a, b);
    let ghost piece = s@.subrange(start as int, n as int);
    if e > a {
        v.push(String::from_str(s.substring_char(a, e)));
    }
    proof {
        assert(s@.take(n as int) =~= s@);
        let all = done.push(piece);
        assert(all.drop_last() =~= done);
        assert(all.last() == piece);
        assert(s@.subrange(a as int, e as int) == clean_origin(piece));
        assert(kept_origins(all) == kept_origins(done) + if clean_origin(piece).len() > 0 {
            seq![clean_origin(piece)]
        } else {
            seq![]
        });
        let want = allowed_origins_spec(opt_text(extra));
        assert(want == seq!["http://localhost:3000"@, "http://127.0.0.1:3000"@] + kept_origins(all));
        assert forall|k: int| 0 <= k < v@.len() implies (#[trigger] v@[k])@ == want[k] by {
            if k >= 2 && k - 2 < kept_origins(done).len() {
                assert(v@[(k - 2) + 2] == v@[k]);
                assert(kept_origins(all)[k - 2] == kept_origins(done)[k - 2]);
            }
        }
    }
    v
}

} // verus!
