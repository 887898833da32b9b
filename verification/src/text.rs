//! Character-level text utilities: equality, placeholder replacement and
//! decimal formatting, each specified over `Seq<char>`.

use vstd::prelude::*;
use vstd::string::StrSliceExecFns;
use vstd::string::StringExecFns;

verus! {

/// Relies on std's `String::push`: appends exactly one character.
#[verifier::external_body]
pub fn push_char(s: &mut String, c: char)
    ensures
        final(s)@ == old(s)@.push(c),
{
    s.push(c);
}

/// The characters of `s`, as a vector.
pub fn chars_vec(s: &str) -> (r: Vec<char>)
    ensures
        r@ == s@,
{
    let n = s.unicode_len();
    let mut r: Vec<char> = Vec::new();
    let mut i: usize = 0;
    while i < n
        invariant
            n == s@.len(),
            i <= n,
            r@ == s@.take(i as int),
        decreases n - i,
    {
        r.push(s.get_char(i));
        i = i + 1;
        proof {
            assert(r@ =~= s@.take(i as int));
        }
    }
    proof {
        assert(s@.take(n as int) =~= s@);
    }
    r
}

/// Whether two string slices hold the same characters.
pub fn str_eq(a: &str, b: &str) -> (r: bool)
    ensures
        r == (a@ == b@),
{
    let an = a.unicode_len();
    let bn = b.unicode_len();
    if an != bn {
        return false;
    }
    let mut i: usize = 0;
    while i < an
        invariant
            an == a@.len(),
            an == b@.len(),
            i <= an,
            forall|k: int| 0 <= k < i ==> a@[k] == b@[k],
        decreases an - i,
    {
        if a.get_char(i) != b.get_char(i) {
            return false;
        }
        i = i + 1;
    }
    proof {
        assert(a@ =~= b@);
    }
    true
}

/// Whether the characters of `s` starting at `i` begin with `pat`.
fn match_at(s: &Vec<char>, i: usize, pat: &Vec<char>) -> (r: bool)
    requires
        i + pat@.len() <= s@.len(),
    ensures
        r == (s@.subrange(i as int, i + pat@.len()) == pat@),
{
    let m = pat.len();
    let slen = s.len();
    let mut j: usize = 0;
    while j < m
        invariant
            m == pat@.len(),
            slen == s@.len(),
            i + m <= slen,
            j <= m,
            forall|k: int| 0 <= k < j ==> s@[i + k] == pat@[k],
        decreases m - j,
    {
        if s[i + j] != pat[j] {
            proof {
                assert(s@.subrange(i as int, i + pat@.len())[j as int] == s@[i + j]);
            }
            return false;
        }
        j = j + 1;
    }
    proof {
        assert(s@.subrange(i as int, i + m as nat) =~= pat@);
    }
    true
}

/// The text `s` with every occurrence of `pat` replaced by `rep`, scanning
/// left to right without overlap. An empty pattern leaves the text unchanged.
pub open spec fn replace_text(s: Seq<char>, pat: Seq<char>, rep: Seq<char>) -> Seq<char>
    decreases s.len(),
{
    if pat.len() == 0 || s.len() < pat.len() {
        s
    } else if s.take(pat.len() as int) == pat {
        rep + replace_text(s.skip(pat.len() as int), pat, rep)
    } else {
        seq![s[0]] + replace_text(s.skip(1), pat, rep)
    }
}

/// `s` with every occurrence of `pat` replaced by `rep`.
pub fn replace(s: &str, pat: &str, rep: &str) -> (r: String)
    ensures
        r@ == replace_text(s@, pat@, rep@),
{
    let sc = chars_vec(s);
    let pc = chars_vec(pat);
    let p = pc.len();
    if p == 0 {
        return s.to_owned();
    }
    let n = sc.len();
    let mut out = String::new();
    let mut i: usize = 0;
    proof {
        assert(s@.skip(0) =~= s@);
        assert(out@ + replace_text(s@, pat@, rep@) =~= replace_text(s@, pat@, rep@));
    }
    while i < n
        invariant
            sc@ == s@,
            pc@ == pat@,
            p == pat@.len(),
            0 < p,
            n == s@.len(),
            i <= n,
            replace_text(s@, pat@, rep@) == out@ + replace_text(s@.skip(i as int), pat@, rep@),
        decreases n - i,
    {
        let ghost tail = s@.skip(i as int);
        let ghost whole = replace_text(s@, pat@, rep@);
        if p <= n - i && match_at(&sc, i, &pc) {
            proof {
                assert(tail.take(p as int) =~= s@.subrange(i as int, i + pat@.len()));
                assert(tail.skip(p as int) =~= s@.skip(i + p as nat));
                assert(replace_text(tail, pat@, rep@) == rep@ + replace_text(
                    s@.skip(i + p as nat),
                    pat@,
                    rep@,
                ));
            }
            out.append(rep);
            i = i + p;
            proof {
                assert(whole =~= out@ + replace_text(s@.skip(i as int), pat@, rep@));
            }
        } else {
            proof {
                assert(tail.skip(1) =~= s@.skip(i + 1));
                if i + p <= n {
                    assert(tail.take(p as int) =~= s@.subrange(i as int, i + pat@.len()));
                    assert(replace_text(tail, pat@, rep@) == seq![tail[0]] + replace_text(
                        s@.skip(i + 1),
                        pat@,
                        rep@,
                    ));
                } else {
                    assert(tail.len() < p);
                    assert(replace_text(tail, pat@, rep@) == tail);
                    assert(replace_text(s@.skip(i + 1), pat@, rep@) == s@.skip(i + 1));
                    assert(tail =~= seq![tail[0]] + s@.skip(i + 1));
                }
            }
            let c = sc[i];
            push_char(&mut out, c);
            i = i + 1;
            proof {
                assert(whole =~= out@ + replace_text(s@.skip(i as int), pat@, rep@));
            }
        }
    }
    proof {
        assert(s@.skip(n as int) =~= Seq::<char>::empty());
        assert(replace_text(s@.skip(n as int), pat@, rep@) == s@.skip(n as int));
        assert(replace_text(s@, pat@, rep@) =~= out@);
    }
    out
}

/// The character for one decimal digit.
pub open spec fn digit_char(d: nat) -> char {
    if d == 0 {
        '0'
    } else if d == 1 {
        '1'
    } else if d == 2 {
        '2'
    } else if d == 3 {
        '3'
    } else if d == 4 {
        '4'
    } else if d == 5 {
        '5'
    } else if d == 6 {
        '6'
    } else if d == 7 {
        '7'
    } else if d == 8 {
        '8'
    } else {
        '9'
    }
}

/// The usual decimal rendering of `n`, without sign or leading zeros.
pub open spec fn dec_str(n: nat) -> Seq<char>
    decreases n,
{
    if n < 10 {
        seq![digit_char(n)]
    } else {
        dec_str(n / 10).push(digit_char(n % 10))
    }
}

fn digit_exec(d: u64) -> (c: char)
    requires
        d < 10,
    ensures
        c == digit_char(d as nat),
{
    if d == 0 {
        '0'
    } else if d == 1 {
        '1'
    } else if d == 2 {
        '2'
    } else if d == 3 {
        '3'
    } else if d == 4 {
        '4'
    } else if d == 5 {
        '5'
    } else if d == 6 {
        '6'
    } else if d == 7 {
        '7'
    } else if d == 8 {
        '8'
    } else {
        '9'
    }
}

/// `n` rendered in decimal.
pub fn u64_to_string(n: u64) -> (r: String)
    ensures
        r@ == dec_str(n as nat),
    decreases n,
{
    if n < 10 {
        let mut s = String::new();
        push_char(&mut s, digit_exec(n));
        proof {
            assert(s@ =~= seq![digit_char(n as nat)]);
        }
        s
    } else {
        let mut s = u64_to_string(n / 10);
        push_char(&mut s, digit_exec(n % 10));
        s
    }
}

} // verus!
