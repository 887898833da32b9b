//! The import pipeline: turns uploaded delimited text into a batch of
//! vouchers.
//!
//! A record is one line; only its first comma-delimited field counts. The
//! first record is always discarded as a header, whatever it holds. Each
//! remaining field is trimmed; blank results and results starting with `#`
//! (the comment convention) are dropped, and every other one becomes a
//! voucher code, in input order. Codes are not deduplicated here: collisions
//! surface at the store's uniqueness check.

use vstd::prelude::*;
use vstd::string::StrSliceExecFns;

use crate::text::chars_vec;
use crate::voucher::{voucher_valid, Voucher};

verus! {

/// Why an import was refused.
#[derive(Debug, Clone, Copy, PartialEq, Eq)]
pub enum ImportError {
    /// After dropping the header, blanks and comments, no code was left.
    NoValidCodes,
}

impl ImportError {
    /// A human-readable description of the failure.
    pub fn message(&self) -> (r: &'static str)
        ensures
            r@ == "No valid voucher codes found in CSV"@,
    {
        "No valid voucher codes found in CSV"
    }
}

/// Whitespace, as the trim step understands it: the Unicode white-space
/// characters, matching what `char::is_whitespace` accepts.
pub open spec fn is_space(c: char) -> bool {
    ||| c == '\u{0009}'
    ||| c == '\u{000A}'
    ||| c == '\u{000B}'
    ||| c == '\u{000C}'
    ||| c == '\u{000D}'
    ||| c == ' '
    ||| c == '\u{0085}'
    ||| c == '\u{00A0}'
    ||| c == '\u{1680}'
    ||| ('\u{2000}' <= c && c <= '\u{200A}')
    ||| c == '\u{2028}'
    ||| c == '\u{2029}'
    ||| c == '\u{202F}'
    ||| c == '\u{205F}'
    ||| c == '\u{3000}'
}

/// The index of the first occurrence of `c` in `s`, or `s.len()` if absent.
pub open spec fn idx_of(s: Seq<char>, c: char) -> nat
    decreases s.len(),
{
    if s.len() == 0 {
        0
    } else if s[0] == c {
        0
    } else {
        1 + idx_of(s.drop_first(), c)
    }
}

/// The records of `text`: split on newline, keeping empty records.
pub open spec fn split_lines(s: Seq<char>) -> Seq<Seq<char>>
    decreases s.len(),
{
    let i = idx_of(s, '\n');
    if i >= s.len() {
        seq![s]
    } else {
        seq![s.take(i as int)] + split_lines(s.skip(i + 1int))
    }
}

/// The first comma-delimited field of a record.
pub open spec fn first_field(line: Seq<char>) -> Seq<char> {
    line.take(idx_of(line, ',') as int)
}

/// `s` without leading whitespace.
pub open spec fn trim_front(s: Seq<char>) -> Seq<char>
    decreases s.len(),
{
    if s.len() > 0 && is_space(s[0]) {
        trim_front(s.drop_first())
    } else {
        s
    }
}

/// `s` without trailing whitespace.
pub open spec fn trim_back(s: Seq<char>) -> Seq<char>
    decreases s.len(),
{
    if s.len() > 0 && is_space(s.last()) {
        trim_back(s.drop_last())
    } else {
        s
    }
}

/// `s` without leading or trailing whitespace.
pub open spec fn trimmed(s: Seq<char>) -> Seq<char> {
    trim_back(trim_front(s))
}

/// The code one record contributes: its first field, trimmed.
pub open spec fn code_of_line(line: Seq<char>) -> Seq<char> {
    trimmed(first_field(line))
}

/// A record is kept when its code is non-empty and not a comment.
pub open spec fn line_kept(line: Seq<char>) -> bool {
    code_of_line(line).len() > 0 && code_of_line(line)[0] != '#'
}

/// The codes that a record list contributes, in order.
pub open spec fn codes_of(lines: Seq<Seq<char>>) -> Seq<Seq<char>>
    decreases lines.len(),
{
    if lines.len() == 0 {
        Seq::empty()
    } else if line_kept(lines[0]) {
        seq![code_of_line(lines[0])] + codes_of(lines.drop_first())
    } else {
        codes_of(lines.drop_first())
    }
}

/// The codes an import of `text` yields: every record after the header, in
/// order, trimmed, with blanks and comments dropped.
pub open spec fn parsed_codes(text: Seq<char>) -> Seq<Seq<char>> {
    codes_of(split_lines(text).drop_first())
}

proof fn lemma_idx_of(s: Seq<char>, c: char)
    ensures
        idx_of(s, c) <= s.len(),
        forall|k: int| 0 <= k < idx_of(s, c) ==> s[k] != c,
        idx_of(s, c) < s.len() ==> s[idx_of(s, c) as int] == c,
    decreases s.len(),
{
    if s.len() == 0 {
    } else if s[0] == c {
    } else {
        lemma_idx_of(s.drop_first(), c);
        assert forall|k: int| 0 <= k < idx_of(s, c) implies s[k] != c by {
            if k > 0 {
                assert(s.drop_first()[k - 1] == s[k]);
            }
        }
        if idx_of(s, c) < s.len() {
            assert(s.drop_first()[idx_of(s.drop_first(), c) as int] == s[idx_of(s, c) as int]);
        }
    }
}

proof fn lemma_idx_of_is(s: Seq<char>, c: char, j: int)
    requires
        0 <= j <= s.len(),
        forall|k: int| 0 <= k < j ==> s[k] != c,
        j < s.len() ==> s[j] == c,
    ensures
        idx_of(s, c) == j,
{
    lemma_idx_of(s, c);
    let i = idx_of(s, c) as int;
    if i < j {
        assert(s[i] != c);
        assert(s[i] == c);
    }
    if i > j {
        assert(s[j] != c);
        assert(s[j] == c);
    }
}

proof fn lemma_split_step(s: Seq<char>, start: int, end: int)
    requires
        0 <= start <= end <= s.len(),
        forall|k: int| start <= k < end ==> s[k] != '\n',
        end < s.len() ==> s[end] == '\n',
    ensures
        end < s.len() ==> split_lines(s.skip(start)) == seq![s.subrange(start, end)]
            + split_lines(s.skip(end + 1)),
        end == s.len() ==> split_lines(s.skip(start)) == seq![s.subrange(start, end)],
{
    let t = s.skip(start);
    assert forall|k: int| 0 <= k < end - start implies t[k] != '\n' by {
        assert(t[k] == s[start + k]);
    }
    if end < s.len() {
        assert(t[end - start] == s[end]);
    }
    lemma_idx_of_is(t, '\n', end - start);
    if end < s.len() {
        assert(t.take(end - start) =~= s.subrange(start, end));
        assert(t.skip(end - start + 1) =~= s.skip(end + 1));
    } else {
        assert(t.take(end - start) =~= s.subrange(start, end));
        assert(idx_of(t, '\n') >= t.len());
        assert(t =~= s.subrange(start, end));
    }
}

proof fn lemma_trim_front_skip(s: Seq<char>, k: int)
    requires
        0 <= k <= s.len(),
        forall|j: int| 0 <= j < k ==> is_space(s[j]),
        k < s.len() ==> !is_space(s[k]),
    ensures
        trim_front(s) == s.skip(k),
    decreases k,
{
    if k == 0 {
        assert(s.skip(0) =~= s);
    } else {
        assert(is_space(s[0]));
        let d = s.drop_first();
        assert forall|j: int| 0 <= j < k - 1 implies is_space(d[j]) by {
            assert(d[j] == s[j + 1]);
        }
        if k - 1 < d.len() {
            assert(d[k - 1] == s[k]);
        }
        lemma_trim_front_skip(d, k - 1);
        assert(d.skip(k - 1) =~= s.skip(k));
    }
}

proof fn lemma_trim_back_take(s: Seq<char>, m: int)
    requires
        0 <= m <= s.len(),
        forall|j: int| m <= j < s.len() ==> is_space(s[j]),
        m > 0 ==> !is_space(s[m - 1]),
    ensures
        trim_back(s) == s.take(m),
    decreases s.len(),
{
    if m == s.len() {
        if s.len() > 0 {
            assert(!is_space(s.last()));
        }
        assert(s.take(m) =~= s);
    } else {
        assert(is_space(s.last()));
        let d = s.drop_last();
        assert forall|j: int| m <= j < d.len() implies is_space(d[j]) by {
            assert(d[j] == s[j]);
        }
        if m > 0 {
            assert(d[m - 1] == s[m - 1]);
        }
        lemma_trim_back_take(d, m);
        assert(d.take(m) =~= s.take(m));
    }
}

fn is_space_exec(c: char) -> (r: bool)
    ensures
        r == is_space(c),
{
    (c == '\u{0009}' || c == '\u{000A}' || c == '\u{000B}' || c == '\u{000C}' || c == '\u{000D}'
        || c == ' ') || (c == '\u{0085}' || c == '\u{00A0}' || c == '\u{1680}') || ('\u{2000}'
        <= c && c <= '\u{200A}') || (c == '\u{2028}' || c == '\u{2029}' || c == '\u{202F}' || c
        == '\u{205F}' || c == '\u{3000}')
}

/// Parses uploaded text into the list of voucher codes it carries; fails
/// with `NoValidCodes` exactly when nothing is left after dropping the
/// header, blanks and comments.
pub fn parse_codes(text: &str) -> (r: Result<Vec<String>, ImportError>)
    ensures
        ({
            let codes = parsed_codes(text@);
            match r {
                Ok(v) => v.deep_view() == codes && codes.len() > 0,
                Err(e) => e == ImportError::NoValidCodes && codes.len() == 0,
            }
        }),
{
    let ghost s = text@;
    let chars = chars_vec(text);
    let n = chars.len();
    let mut out: Vec<String> = Vec::new();
    // skip the header record
    let mut h: usize = 0;
    while h < n && chars[h] != '\n'
        invariant
            chars@ == s,
            n == s.len(),
            h <= n,
            forall|k: int| 0 <= k < h ==> s[k] != '\n',
        decreases n - h,
    {
        h = h + 1;
    }
    proof {
        assert(s.skip(0) =~= s);
        lemma_split_step(s, 0, h as int);
    }
    if h == n {
        proof {
            assert(split_lines(s) == seq![s.subrange(0, h as int)]);
            assert(split_lines(s).drop_first() =~= Seq::<Seq<char>>::empty());
        }
        return Err(ImportError::NoValidCodes);
    }
    let mut pos: usize = h + 1;
    let mut done = false;
    proof {
        assert(split_lines(s) == seq![s.subrange(0, h as int)] + split_lines(s.skip(h + 1)));
        assert(split_lines(s).drop_first() =~= split_lines(s.skip(pos as int)));
        assert(out.deep_view() =~= Seq::<Seq<char>>::empty());
        assert(Seq::<Seq<char>>::empty() + codes_of(split_lines(s.skip(pos as int))) =~= codes_of(
            split_lines(s.skip(pos as int)),
        ));
    }
    while !done
        invariant
            s == text@,
            chars@ == s,
            n == s.len(),
            pos <= n,
            !done ==> parsed_codes(s) == out.deep_view() + codes_of(split_lines(s.skip(pos as int))),
            done ==> parsed_codes(s) == out.deep_view(),
        decreases n - pos + (if done {
            0int
        } else {
            1int
        }),
    {
        let ghost out0 = out.deep_view();
        // the record runs to the next newline or the end of the text
        let mut e: usize = pos;
        while e < n && chars[e] != '\n'
            invariant
                chars@ == s,
                n == s.len(),
                pos <= e <= n,
                forall|k: int| pos <= k < e ==> s[k] != '\n',
            decreases n - e,
        {
            e = e + 1;
        }
        proof {
            lemma_split_step(s, pos as int, e as int);
        }
        let ghost line = s.subrange(pos as int, e as int);
        // the first comma-delimited field of the record
        let mut fe: usize = pos;
        while fe < e && chars[fe] != ','
            invariant
                chars@ == s,
                n == s.len(),
                pos <= fe <= e <= n,
                forall|k: int| pos <= k < fe ==> s[k] != ',',
            decreases e - fe,
        {
            fe = fe + 1;
        }
        proof {
            assert forall|k: int| 0 <= k < fe - pos implies line[k] != ',' by {
                assert(line[k] == s[pos + k]);
            }
            if fe < e {
                assert(line[fe - pos] == s[fe as int]);
            }
            lemma_idx_of_is(line, ',', fe - pos);
            assert(first_field(line) =~= s.subrange(pos as int, fe as int));
        }
        // trim whitespace from both ends of the field
        let mut a: usize = pos;
        while a < fe && is_space_exec(chars[a])
            invariant
                chars@ == s,
                n == s.len(),
                pos <= a <= fe <= n,
                forall|k: int| pos <= k < a ==> is_space(s[k]),
            decreases fe - a,
        {
            a = a + 1;
        }
        let mut b: usize = fe;
        while b > a && is_space_exec(chars[b - 1])
            invariant
                chars@ == s,
                n == s.len(),
                a <= b <= fe <= n,
                forall|k: int| b <= k < fe ==> is_space(s[k]),
            decreases b - a,
        {
            b = b - 1;
        }
        proof {
            let field = s.subrange(pos as int, fe as int);
            assert forall|j: int| 0 <= j < a - pos implies is_space(field[j]) by {
                assert(field[j] == s[pos + j]);
            }
            if a < fe {
                assert(field[a - pos] == s[a as int]);
            }
            lemma_trim_front_skip(field, a - pos);
            let g = field.skip(a - pos);
            assert(g =~= s.subrange(a as int, fe as int));
            assert forall|j: int| b - a <= j < g.len() implies is_space(g[j]) by {
                assert(g[j] == s[a + j]);
            }
            if b > a {
                assert(g[b - a - 1] == s[b - 1]);
            }
            lemma_trim_back_take(g, b - a);
            assert(g.take(b - a) =~= s.subrange(a as int, b as int));
            assert(code_of_line(line) == s.subrange(a as int, b as int));
        }
        // keep the trimmed field unless it is blank or a comment
        let kept = b > a && chars[a] != '#';
        proof {
            if b > a {
                assert(code_of_line(line)[0] == s[a as int]);
            }
            assert(kept == line_kept(line));
        }
        if kept {
            let ghost prevv = out@;
            proof {
                assert(a <= b);
                assert(b <= n);
                assert(n == text@.len());
            }
            let code = text.substring_char(a, b).to_owned();
            let ghost cm = code@;
            out.push(code);
            proof {
                assert(cm == code_of_line(line));
                assert(out0 == Seq::new(prevv.len() as nat, |k: int| prevv[k].deep_view()));
                assert forall|k: int| 0 <= k < out@.len() implies out.deep_view()[k] == (out0
                    + seq![code_of_line(line)])[k] by {
                    if k < out0.len() {
                        assert(prevv.push(code)[k] == prevv[k]);
                        assert(out.deep_view()[k] == out0[k]);
                    } else {
                        assert(prevv.push(code)[k] == code);
                    }
                }
                assert(out.deep_view() =~= out0 + seq![code_of_line(line)]);
            }
        }
        proof {
            let rest = split_lines(s.skip(pos as int));
            assert(rest[0] == line) by {
                if (e as int) < n {
                    assert(rest == seq![line] + split_lines(s.skip(e + 1)));
                } else {
                    assert(rest == seq![line]);
                }
            }
            if (e as int) < n {
                assert(rest.drop_first() =~= split_lines(s.skip(e + 1)));
            } else {
                assert(rest.drop_first() =~= Seq::<Seq<char>>::empty());
            }
            if line_kept(line) {
                assert(codes_of(rest) == seq![code_of_line(line)] + codes_of(rest.drop_first()));
                assert(out0 + codes_of(rest) =~= (out0 + seq![code_of_line(line)]) + codes_of(
                    rest.drop_first(),
                ));
            } else {
                assert(codes_of(rest) == codes_of(rest.drop_first()));
            }
            assert(codes_of(Seq::<Seq<char>>::empty()) =~= Seq::<Seq<char>>::empty());
            assert(out.deep_view() + Seq::<Seq<char>>::empty() =~= out.deep_view());
        }
        if e < n {
            pos = e + 1;
        } else {
            done = true;
        }
    }
    if out.len() == 0 {
        proof {
            assert(out.deep_view() =~= Seq::<Seq<char>>::empty());
        }
        Err(ImportError::NoValidCodes)
    } else {
        proof {
            assert(out.deep_view().len() == out@.len());
        }
        Ok(out)
    }
}

/// Parses uploaded text into a batch of fresh vouchers, one per code, in
/// input order; fails with `NoValidCodes` exactly when the code list is
/// empty.
pub fn process_csv_data(csv_content: &str) -> (r: Result<Vec<Voucher>, ImportError>)
    ensures
        ({
            let codes = parsed_codes(csv_content@);
            match r {
                Ok(vs) => {
                    &&& codes.len() > 0
                    &&& vs.deep_view().len() == codes.len()
                    &&& forall|i: int|
                        0 <= i < codes.len() ==> {
                            let v = #[trigger] vs.deep_view()[i];
                            &&& v.code == codes[i]
                            &&& v.network_id is None
                            &&& !v.is_used
                            &&& v.used_at is None
                            &&& !v.is_printed
                            &&& v.printed_at is None
                            &&& v.id.len() == 36
                            &&& voucher_valid(v)
                        }
                },
                Err(e) => e == ImportError::NoValidCodes && codes.len() == 0,
            }
        }),
{
    let codes = match parse_codes(csv_content) {
        Ok(c) => c,
        Err(e) => {
            return Err(e);
        },
    };
    let ghost cs = parsed_codes(csv_content@);
    let n = codes.len();
    let mut vs: Vec<Voucher> = Vec::new();
    let mut i: usize = 0;
    while i < n
        invariant
            codes.deep_view() == cs,
            n == cs.len(),
            n == codes@.len(),
            i <= n,
            vs.deep_view().len() == i,
            forall|k: int|
                0 <= k < i ==> {
                    let v = #[trigger] vs.deep_view()[k];
                    &&& v.code == cs[k]
                    &&& v.network_id is None
                    &&& !v.is_used
                    &&& v.used_at is None
                    &&& !v.is_printed
                    &&& v.printed_at is None
                    &&& v.id.len() == 36
                    &&& voucher_valid(v)
                },
        decreases n - i,
    {
        let ghost prevv = vs@;
        let ghost prev = vs.deep_view();
        let code = codes[i].clone();
        proof {
            assert(code@ == cs[i as int]);
        }
        let v = Voucher::new(code);
        vs.push(v);
        i = i + 1;
        proof {
            assert(vs@ == prevv.push(v));
            assert(prev == Seq::new(prevv.len() as nat, |k: int| prevv[k].deep_view()));
            assert forall|k: int| 0 <= k < i implies vs.deep_view()[k] == (if k < i - 1 {
                prev[k]
            } else {
                v@
            }) by {
                if k < i - 1 {
                    assert(prevv.push(v)[k] == prevv[k]);
                } else {
                    assert(prevv.push(v)[k] == v);
                }
            }
        }
    }
    Ok(vs)
}

/// Ties every voucher of a batch to one network, leaving all other fields
/// unchanged.
pub fn assign_network(vouchers: &mut Vec<Voucher>, network_id: &str)
    ensures
        final(vouchers).deep_view().len() == old(vouchers).deep_view().len(),
        forall|i: int|
            0 <= i < old(vouchers).deep_view().len() ==> {
                let v0 = #[trigger] old(vouchers).deep_view()[i];
                let v1 = final(vouchers).deep_view()[i];
                &&& v1.code == v0.code
                &&& v1.id == v0.id
                &&& v1.created_at == v0.created_at
                &&& v1.network_id == Some(network_id@)
                &&& v1.is_used == v0.is_used
                &&& v1.used_at == v0.used_at
                &&& v1.is_printed == v0.is_printed
                &&& v1.printed_at == v0.printed_at
            },
{
    let ghost s0 = vouchers.deep_view();
    let n = vouchers.len();
    let mut i: usize = 0;
    while i < n
        invariant
            n == vouchers@.len(),
            i <= n,
            vouchers.deep_view().len() == n,
            s0.len() == n,
            forall|k: int| i <= k < n ==> #[trigger] vouchers.deep_view()[k] == s0[k],
            forall|k: int|
                0 <= k < i ==> {
                    let v0 = #[trigger] s0[k];
                    let v1 = vouchers.deep_view()[k];
                    &&& v1.code == v0.code
                    &&& v1.id == v0.id
                    &&& v1.created_at == v0.created_at
                    &&& v1.network_id == Some(network_id@)
                    &&& v1.is_used == v0.is_used
                    &&& v1.used_at == v0.used_at
                    &&& v1.is_printed == v0.is_printed
                    &&& v1.printed_at == v0.printed_at
                },
        decreases n - i,
    {
        let ghost prevv = vouchers@;
        let ghost prev = vouchers.deep_view();
        let v = &vouchers[i];
        let nv = Voucher {
            id: v.id.clone(),
            code: v.code.clone(),
            network_id: Some(network_id.to_owned()),
            created_at: v.created_at,
            is_used: v.is_used,
            used_at: v.used_at,
            is_printed: v.is_printed,
            printed_at: v.printed_at,
        };
        proof {
            assert(v@ == prev[i as int]);
        }
        vouchers[i] = nv;
        i = i + 1;
        proof {
            assert(vouchers@ == prevv.update(i - 1, nv));
            assert(prev == Seq::new(prevv.len() as nat, |k: int| prevv[k].deep_view()));
            assert forall|k: int| 0 <= k < n implies vouchers.deep_view()[k] == (if k == i - 1 {
                nv@
            } else {
                prev[k]
            }) by {
                if k == i - 1 {
                    assert(prevv.update(i - 1, nv)[k] == nv);
                } else {
                    assert(prevv.update(i - 1, nv)[k] == prevv[k]);
                }
            }
        }
    }
}


/// A line that can stand as a voucher code unchanged: non-empty, not a
/// comment, with no newline, no comma, and no whitespace at either end.
pub open spec fn clean_code(c: Seq<char>) -> bool {
    &&& c.len() > 0
    &&& c[0] != '#'
    &&& !c.contains('\n')
    &&& !c.contains(',')
    &&& !is_space(c[0])
    &&& !is_space(c.last())
}

/// The lines, joined by single newlines.
pub open spec fn join_lines(lines: Seq<Seq<char>>) -> Seq<char>
    decreases lines.len(),
{
    if lines.len() == 0 {
        Seq::empty()
    } else if lines.len() == 1 {
        lines[0]
    } else {
        lines[0] + seq!['\n'] + join_lines(lines.drop_first())
    }
}

proof fn lemma_split_of_join(lines: Seq<Seq<char>>)
    requires
        lines.len() > 0,
        forall|i: int| 0 <= i < lines.len() ==> !(#[trigger] lines[i]).contains('\n'),
    ensures
        split_lines(join_lines(lines)) == lines,
    decreases lines.len(),
{
    let s = join_lines(lines);
    assert forall|k: int| 0 <= k < lines[0].len() implies s[k] != '\n' by {
        assert(s[k] == lines[0][k]);
        if lines[0][k] == '\n' {
            assert(lines[0].contains('\n'));
        }
    }
    if lines.len() == 1 {
        lemma_idx_of_is(s, '\n', s.len() as int);
        assert(split_lines(s) == seq![s]);
        assert(seq![s] =~= lines);
    } else {
        assert(s[lines[0].len() as int] == '\n');
        assert(s.skip(0) =~= s);
        lemma_split_step(s, 0, lines[0].len() as int);
        assert(s.subrange(0, lines[0].len() as int) =~= lines[0]);
        assert(s.skip(lines[0].len() + 1int) =~= join_lines(lines.drop_first()));
        assert forall|i: int|
            0 <= i < lines.drop_first().len() implies !(#[trigger] lines.drop_first()[
            i]).contains('\n') by {
            assert(lines.drop_first()[i] == lines[i + 1]);
        }
        lemma_split_of_join(lines.drop_first());
        assert(split_lines(s) =~= lines);
    }
}

proof fn lemma_clean_code_is_its_own_code(c: Seq<char>)
    requires
        clean_code(c),
    ensures
        line_kept(c),
        code_of_line(c) == c,
{
    assert forall|k: int| 0 <= k < c.len() implies c[k] != ',' by {
        if c[k] == ',' {
            assert(c.contains(','));
        }
    }
    lemma_idx_of_is(c, ',', c.len() as int);
    assert(first_field(c) =~= c);
    assert(trim_front(c) == c);
    assert(trim_back(c) == c);
}

proof fn lemma_codes_of_clean(lines: Seq<Seq<char>>)
    requires
        forall|i: int| 0 <= i < lines.len() ==> clean_code(#[trigger] lines[i]),
    ensures
        codes_of(lines) == lines,
    decreases lines.len(),
{
    if lines.len() > 0 {
        lemma_clean_code_is_its_own_code(lines[0]);
        assert forall|i: int|
            0 <= i < lines.drop_first().len() implies clean_code(
            #[trigger] lines.drop_first()[i]) by {
            assert(lines.drop_first()[i] == lines[i + 1]);
        }
        lemma_codes_of_clean(lines.drop_first());
        assert(seq![code_of_line(lines[0])] + lines.drop_first() =~= lines);
    }
}

/// Law: a list of clean codes, prepended with one header line, parses back
/// to exactly that list, in order. The header is dropped whatever it says.
pub proof fn lemma_parse_returns_codes(header: Seq<char>, codes: Seq<Seq<char>>)
    requires
        !header.contains('\n'),
        codes.len() > 0,
        forall|i: int| 0 <= i < codes.len() ==> clean_code(#[trigger] codes[i]),
    ensures
        parsed_codes(header + seq!['\n'] + join_lines(codes)) == codes,
{
    let s = header + seq!['\n'] + join_lines(codes);
    assert forall|k: int| 0 <= k < header.len() implies s[k] != '\n' by {
        assert(s[k] == header[k]);
        if header[k] == '\n' {
            assert(header.contains('\n'));
        }
    }
    assert(s[header.len() as int] == '\n');
    assert(s.skip(0) =~= s);
    lemma_split_step(s, 0, header.len() as int);
    assert(s.skip(header.len() + 1int) =~= join_lines(codes));
    assert forall|i: int| 0 <= i < codes.len() implies !(#[trigger] codes[i]).contains('\n') by {
        assert(clean_code(codes[i]));
    }
    lemma_split_of_join(codes);
    assert(split_lines(s).drop_first() =~= split_lines(join_lines(codes)));
    lemma_codes_of_clean(codes);
}

/// Law: when no record after the header is kept — each is blank or a
/// comment — the parse yields nothing, so `parse_codes` fails with
/// `NoValidCodes`.
pub proof fn lemma_only_comments_yield_nothing(text: Seq<char>)
    requires
        forall|i: int|
            0 <= i < split_lines(text).len() ==> !line_kept(#[trigger] split_lines(text)[i]),
    ensures
        parsed_codes(text).len() == 0,
{
    let lines = split_lines(text).drop_first();
    assert forall|i: int| 0 <= i < lines.len() implies !line_kept(#[trigger] lines[i]) by {
        assert(lines[i] == split_lines(text)[i + 1]);
    }
    lemma_codes_of_none_kept(lines);
}

proof fn lemma_codes_of_none_kept(lines: Seq<Seq<char>>)
    requires
        forall|i: int| 0 <= i < lines.len() ==> !line_kept(#[trigger] lines[i]),
    ensures
        codes_of(lines).len() == 0,
    decreases lines.len(),
{
    if lines.len() > 0 {
        assert forall|i: int|
            0 <= i < lines.drop_first().len() implies !line_kept(
            #[trigger] lines.drop_first()[i]) by {
            assert(lines.drop_first()[i] == lines[i + 1]);
        }
        lemma_codes_of_none_kept(lines.drop_first());
    }
}

} // verus!
