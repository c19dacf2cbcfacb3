//! The unescape step applied to model output before parsing: doubled braces
//! collapse, escaped quotes simplify, and literal `\n` sequences are removed.

use vstd::prelude::*;

use crate::text::chars_to_string;
use crate::text::str_to_chars;

verus! {

/// Leftmost non-overlapping replacement of `pat` by `rep`, scanning left to
/// right.
pub open spec fn replace_seq(s: Seq<char>, pat: Seq<char>, rep: Seq<char>) -> Seq<char>
    decreases s.len(),
{
    if pat.len() == 0 || s.len() < pat.len() {
        s
    } else if s.take(pat.len() as int) == pat {
        rep + replace_seq(s.skip(pat.len() as int), pat, rep)
    } else {
        seq![s[0]] + replace_seq(s.skip(1), pat, rep)
    }
}

/// Whether `pat` occurs in `s` at position `i`.
pub open spec fn occurs_at(s: Seq<char>, pat: Seq<char>, i: int) -> bool {
    0 <= i && i + pat.len() <= s.len() && s.subrange(i, i + pat.len()) == pat
}

/// Whether `s` is free of any occurrence of `pat`.
pub open spec fn free_of(s: Seq<char>, pat: Seq<char>) -> bool {
    forall|i: int| !occurs_at(s, pat, i)
}

/// The unescape transformation: `{{` to `{`, then `}}` to `}`, then `\\"` to
/// `"`, then `\"` to `"`, then `\n` removed, in that order.
pub open spec fn unescape_seq(s: Seq<char>) -> Seq<char> {
    let s1 = replace_seq(s, seq!['{', '{'], seq!['{']);
    let s2 = replace_seq(s1, seq!['}', '}'], seq!['}']);
    let s3 = replace_seq(s2, seq!['\\', '\\', '"'], seq!['"']);
    let s4 = replace_seq(s3, seq!['\\', '"'], seq!['"']);
    replace_seq(s4, seq!['\\', 'n'], Seq::<char>::empty())
}

/// Whether two character windows match.
pub(crate) fn match_at(s: &Vec<char>, i: usize, pat: &Vec<char>) -> (r: bool)
    requires
        i + pat@.len() <= s@.len(),
    ensures
        r == (s@.subrange(i as int, i as int + pat@.len() as int) == pat@),
{
    let n = s.len();
    let mut j: usize = 0;
    while j < pat.len()
        invariant
            0 <= j <= pat@.len(),
            i + pat@.len() <= s@.len(),
            n == s@.len(),
            forall|k: int| 0 <= k < j ==> s@[i + k] == pat@[k],
        decreases pat@.len() - j,
    {
        if s[i + j] != pat[j] {
            proof {
                assert(s@.subrange(i as int, i as int + pat@.len() as int)[j as int] != pat@[
                j as int]);
            }
            return false;
        }
        j += 1;
    }
    proof {
        assert(s@.subrange(i as int, i as int + pat@.len() as int) =~= pat@);
    }
    true
}

/// Leftmost non-overlapping replacement over character vectors.
fn replace_chars(s: &Vec<char>, pat: &Vec<char>, rep: &Vec<char>) -> (r: Vec<char>)
    requires
        pat@.len() >= 1,
    ensures
        r@ == replace_seq(s@, pat@, rep@),
{
    let mut out: Vec<char> = Vec::new();
    let mut i: usize = 0;
    proof {
        assert(s@.skip(0) =~= s@);
        assert(out@ + replace_seq(s@.skip(0), pat@, rep@) =~= replace_seq(s@, pat@, rep@));
    }
    while i < s.len()
        invariant
            0 <= i <= s@.len(),
            pat@.len() >= 1,
            out@ + replace_seq(s@.skip(i as int), pat@, rep@) =~= replace_seq(s@, pat@, rep@),
        decreases s@.len() - i,
    {
        let ghost o0 = out@;
        let ghost rest = s@.skip(i as int);
        let remaining = s.len() - i;
        if pat.len() <= remaining && match_at(s, i, pat) {
            proof {
                assert(rest.take(pat@.len() as int) =~= s@.subrange(
                    i as int,
                    i as int + pat@.len() as int,
                ));
            }
            let mut j: usize = 0;
            while j < rep.len()
                invariant
                    0 <= j <= rep@.len(),
                    out@ =~= o0 + rep@.take(j as int),
                decreases rep@.len() - j,
            {
                let ghost prev = out@;
                out.push(rep[j]);
                proof {
                    assert(o0 + rep@.take(j + 1 as int) =~= prev.push(rep@[j as int]));
                }
                j += 1;
            }
            proof {
                assert(out@ =~= o0 + rep@);
                assert(rest.skip(pat@.len() as int) =~= s@.skip(i as int + pat@.len() as int));
                assert(replace_seq(rest, pat@, rep@) == rep@ + replace_seq(
                    rest.skip(pat@.len() as int),
                    pat@,
                    rep@,
                ));
                assert(out@ + replace_seq(s@.skip(i as int + pat@.len() as int), pat@, rep@)
                    =~= replace_seq(s@, pat@, rep@));
            }
            i += pat.len();
        } else {
            proof {
                if i + pat@.len() <= s@.len() {
                    assert(rest.take(pat@.len() as int) =~= s@.subrange(
                        i as int,
                        i as int + pat@.len() as int,
                    ));
                    assert(rest.take(pat@.len() as int) != pat@);
                } else {
                    assert(rest.len() < pat@.len());
                }
            }
            out.push(s[i]);
            proof {
                if rest.len() >= pat@.len() {
                    assert(replace_seq(rest, pat@, rep@) == seq![rest[0]] + replace_seq(
                        rest.skip(1),
                        pat@,
                        rep@,
                    ));
                    assert(out@ =~= o0.push(s@[i as int]));
                    assert(rest.skip(1) =~= s@.skip(i + 1 as int));
                    assert(out@ + replace_seq(s@.skip(i + 1 as int), pat@, rep@) =~= replace_seq(
                        s@,
                        pat@,
                        rep@,
                    ));
                } else {
                    assert(replace_seq(rest, pat@, rep@) == rest);
                    assert(rest.len() == s@.len() - i);
                    assert(rest[0] == s@[i as int]);
                    assert(out@ + rest.skip(1) =~= o0 + rest);
                    assert(rest.skip(1) =~= s@.skip(i + 1 as int));
                    assert(replace_seq(s@.skip(i + 1 as int), pat@, rep@) == s@.skip(i + 1 as int));
                    assert(out@ + replace_seq(s@.skip(i + 1 as int), pat@, rep@) =~= replace_seq(
                        s@,
                        pat@,
                        rep@,
                    ));
                }
            }
            i += 1;
        }
    }
    proof {
        assert(s@.skip(s@.len() as int) =~= Seq::<char>::empty());
        assert(replace_seq(Seq::<char>::empty(), pat@, rep@) == Seq::<char>::empty());
        assert(out@ =~= replace_seq(s@, pat@, rep@));
    }
    out
}

/// Applies the unescape transformation to a string.
pub fn unescape_json(s: &str) -> (r: String)
    ensures
        r@ == unescape_seq(s@),
{
    let chars = str_to_chars(s);
    let pat1: Vec<char> = vec!['{', '{'];
    let rep1: Vec<char> = vec!['{'];
    let pat2: Vec<char> = vec!['}', '}'];
    let rep2: Vec<char> = vec!['}'];
    let pat3: Vec<char> = vec!['\\', '\\', '"'];
    let rep3: Vec<char> = vec!['"'];
    let pat4: Vec<char> = vec!['\\', '"'];
    let rep4: Vec<char> = vec!['"'];
    let pat5: Vec<char> = vec!['\\', 'n'];
    let rep5: Vec<char> = Vec::new();
    proof {
        assert(pat1@ =~= seq!['{', '{']);
        assert(rep1@ =~= seq!['{']);
        assert(pat2@ =~= seq!['}', '}']);
        assert(rep2@ =~= seq!['}']);
        assert(pat3@ =~= seq!['\\', '\\', '"']);
        assert(rep3@ =~= seq!['"']);
        assert(pat4@ =~= seq!['\\', '"']);
        assert(rep4@ =~= seq!['"']);
        assert(pat5@ =~= seq!['\\', 'n']);
        assert(rep5@ =~= Seq::<char>::empty());
    }
    let s1 = replace_chars(&chars, &pat1, &rep1);
    let s2 = replace_chars(&s1, &pat2, &rep2);
    let s3 = replace_chars(&s2, &pat3, &rep3);
    let s4 = replace_chars(&s3, &pat4, &rep4);
    let s5 = replace_chars(&s4, &pat5, &rep5);
    chars_to_string(&s5)
}

/// A string free of a pattern is left unchanged by its replacement.
proof fn lemma_replace_free(s: Seq<char>, pat: Seq<char>, rep: Seq<char>)
    requires
        pat.len() >= 1,
        free_of(s, pat),
    ensures
        replace_seq(s, pat, rep) == s,
    decreases s.len(),
{
    if s.len() < pat.len() {
    } else {
        assert(!occurs_at(s, pat, 0));
        assert(s.take(pat.len() as int) =~= s.subrange(0, pat.len() as int));
        assert(s.take(pat.len() as int) != pat);
        assert forall|i: int| !occurs_at(s.skip(1), pat, i) by {
            if 0 <= i && i + pat.len() <= s.skip(1).len() {
                assert(s.skip(1).subrange(i, i + pat.len() as int) =~= s.subrange(
                    i + 1,
                    i + 1 + pat.len() as int,
                ));
                assert(!occurs_at(s, pat, i + 1));
            }
        }
        lemma_replace_free(s.skip(1), pat, rep);
        assert(replace_seq(s, pat, rep) =~= seq![s[0]] + s.skip(1));
        assert(seq![s[0]] + s.skip(1) =~= s);
    }
}

/// Law: unescape is idempotent after one application.  When the result of
/// one application is free of all five escape patterns, applying the
/// transformation again returns it unchanged.  (A string such as three
/// opening braces in a row is rewritten by every application, so the law
/// holds under this freeness premise.)
pub proof fn lemma_unescape_idempotent(s: Seq<char>)
    requires
        free_of(unescape_seq(s), seq!['{', '{']),
        free_of(unescape_seq(s), seq!['}', '}']),
        free_of(unescape_seq(s), seq!['\\', '\\', '"']),
        free_of(unescape_seq(s), seq!['\\', '"']),
        free_of(unescape_seq(s), seq!['\\', 'n']),
    ensures
        unescape_seq(unescape_seq(s)) == unescape_seq(s),
{
    let u = unescape_seq(s);
    lemma_replace_free(u, seq!['{', '{'], seq!['{']);
    lemma_replace_free(u, seq!['}', '}'], seq!['}']);
    lemma_replace_free(u, seq!['\\', '\\', '"'], seq!['"']);
    lemma_replace_free(u, seq!['\\', '"'], seq!['"']);
    lemma_replace_free(u, seq!['\\', 'n'], Seq::<char>::empty());
}

} // verus!
