//! Text building blocks: decimal numbers, line splitting and joining.

use vstd::prelude::*;

verus! {

/// The character of a decimal digit.
pub open spec fn digit_char(d: nat) -> char
    recommends
        d < 10,
{
    (d + 48) as char
}

/// The decimal representation of a natural number, without leading zeros.
pub open spec fn decimal(n: nat) -> Seq<char>
    decreases n,
{
    if n < 10 {
        seq![digit_char(n)]
    } else {
        decimal(n / 10).push(digit_char(n % 10))
    }
}

/// The decimal representation of an integer, with a leading '-' when negative.
pub open spec fn signed_decimal(n: int) -> Seq<char> {
    if n < 0 {
        seq!['-'] + decimal((-n) as nat)
    } else {
        decimal(n as nat)
    }
}

/// The number a string of decimal digits stands for.
pub open spec fn digits_value(s: Seq<char>) -> nat
    decreases s.len(),
{
    if s.len() == 0 {
        0
    } else {
        digits_value(s.drop_last()) * 10 + ((s.last() as nat) - 48) as nat
    }
}

/// Whether every character of `s` is a decimal digit.
pub open spec fn all_digits(s: Seq<char>) -> bool {
    forall|i: int| 0 <= i < s.len() ==> '0' <= #[trigger] s[i] <= '9'
}

/// The decimal representation of a number is a non-empty string of digits
/// that reads back as the number, with no leading zero unless it is "0".
pub proof fn law_decimal_reads_back(n: nat)
    ensures
        all_digits(decimal(n)),
        digits_value(decimal(n)) == n,
        decimal(n).len() >= 1,
        decimal(n).len() > 1 <==> n >= 10,
        decimal(n).len() > 1 ==> decimal(n)[0] != '0',
    decreases n,
{
    if n < 10 {
        assert((digit_char(n) as nat) == n + 48);
        assert(decimal(n).drop_last() =~= Seq::<char>::empty());
        assert(digits_value(decimal(n)) == digits_value(Seq::<char>::empty()) * 10 + n);
    }
    if n >= 10 {
        law_decimal_reads_back(n / 10);
        let d = decimal(n / 10);
        assert(decimal(n).drop_last() =~= d);
        assert(decimal(n)[0] == d[0]);
        assert(decimal(n).last() == digit_char(n % 10));
        assert((digit_char(n % 10) as nat) == n % 10 + 48);
        assert(digits_value(decimal(n)) == (n / 10) * 10 + n % 10);
        assert((n / 10) * 10 + n % 10 == n) by (nonlinear_arith);
        if d.len() == 1 {
            assert(d[0] == digit_char(n / 10));
        }
        assert forall|i: int| 0 <= i < decimal(n).len() implies '0' <= #[trigger] decimal(n)[i]
            <= '9' by {
            if i < d.len() {
                assert(decimal(n)[i] == d[i]);
            }
        }
    }
}

/// `String::push`: appends one character at the end of the string.
#[verifier::external_body]
fn push_char(s: &mut String, c: char)
    ensures
        final(s)@ == old(s)@.push(c),
{
    s.push(c);
}

fn digit(d: u64) -> (c: char)
    requires
        d < 10,
    ensures
        c == digit_char(d as nat),
{
    ((d as u8) + 48u8) as char
}

/// Appends the decimal representation of `n` to `out`.
pub fn push_decimal(out: &mut String, n: u64)
    ensures
        final(out)@ == old(out)@ + decimal(n as nat),
    decreases n,
{
    if n >= 10 {
        push_decimal(out, n / 10);
    }
    push_char(out, digit(n % 10));
}

/// The characters of a string, in order.
pub fn to_chars(s: &str) -> (v: Vec<char>)
    ensures
        v@ == s@,
{
    broadcast use vstd::string::group_string_axioms;
    let mut v: Vec<char> = Vec::new();
    for c in it: s.chars()
        invariant
            it.seq() == s@,
            v@ == it.seq().take(it.index() as int),
    {
        v.push(c);
    }
    v
}

/// Appends the decimal representation of a signed integer to `out`.
pub fn push_signed_decimal(out: &mut String, n: i64)
    ensures
        final(out)@ == old(out)@ + signed_decimal(n as int),
{
    if n < 0 {
        push_char(out, '-');
        let magnitude: u64 = (0i128 - (n as i128)) as u64;
        push_decimal(out, magnitude);
        assert(out@ =~= old(out)@ + signed_decimal(n as int));
    } else {
        push_decimal(out, n as u64);
    }
}

/// Appends a string slice to `out`.
pub fn push_str(out: &mut String, s: &str)
    ensures
        final(out)@ == old(out)@ + s@,
{
    out.append(s);
}

/// The characters `chars[from..to]` as a string.
pub fn string_of(chars: &Vec<char>, from: usize, to: usize) -> (s: String)
    requires
        from <= to <= chars@.len(),
    ensures
        s@ == chars@.subrange(from as int, to as int),
{
    let mut s = String::new();
    let mut i = from;
    while i < to
        invariant
            from <= i <= to <= chars@.len(),
            s@ == chars@.subrange(from as int, i as int),
        decreases to - i,
    {
        push_char(&mut s, chars[i]);
        i = i + 1;
        assert(s@ =~= chars@.subrange(from as int, i as int));
    }
    s
}

/// The views of a sequence of strings.
pub open spec fn views(v: Seq<String>) -> Seq<Seq<char>> {
    v.map_values(|s: String| s@)
}

/// Whether two strings are equal.
pub fn str_eq(a: &str, b: &str) -> (res: bool)
    ensures
        res == (a@ == b@),
{
    a.to_owned() == b.to_owned()
}

/// Appending a string appends its view.
pub proof fn lemma_views_push(v: Seq<String>, s: String)
    ensures
        views(v.push(s)) == views(v).push(s@),
{
    assert(views(v.push(s)) =~= views(v).push(s@));
}

/// Lines joined with a newline between consecutive ones (no trailing newline).
pub open spec fn lines_joined(lines: Seq<Seq<char>>) -> Seq<char>
    decreases lines.len(),
{
    if lines.len() == 0 {
        Seq::empty()
    } else if lines.len() == 1 {
        lines[0]
    } else {
        lines_joined(lines.drop_last()) + seq!['\n'] + lines.last()
    }
}

/// Joins strings with a newline between consecutive ones.
pub fn join_lines(items: &Vec<String>) -> (s: String)
    ensures
        s@ == lines_joined(views(items@)),
{
    let mut s = String::new();
    let mut i: usize = 0;
    while i < items.len()
        invariant
            i <= items@.len(),
            s@ == lines_joined(views(items@).take(i as int)),
        decreases items@.len() - i,
    {
        let ghost before = views(items@).take(i as int);
        if i > 0 {
            push_char(&mut s, '\n');
        }
        push_str(&mut s, items[i].as_str());
        i = i + 1;
        assert(views(items@).take(i as int).drop_last() =~= before);
        assert(views(items@).take(i as int) =~= before.push(items@[i - 1]@));
        assert(s@ =~= lines_joined(views(items@).take(i as int)));
    }
    assert(views(items@).take(items@.len() as int) =~= views(items@));
    s
}

/// `s` split at every '\n', as `str::split('\n')` splits it: one more part than
/// there are newlines.
pub open spec fn split_newlines(s: Seq<char>) -> Seq<Seq<char>>
    decreases s.len(),
{
    if s.len() == 0 {
        seq![Seq::empty()]
    } else if s.last() == '\n' {
        split_newlines(s.drop_last()).push(Seq::empty())
    } else {
        let parts = split_newlines(s.drop_last());
        parts.update(parts.len() - 1, parts.last().push(s.last()))
    }
}

/// A line without the '\r' of a "\r\n" ending.
pub open spec fn strip_cr(line: Seq<char>) -> Seq<char> {
    if line.len() > 0 && line.last() == '\r' {
        line.drop_last()
    } else {
        line
    }
}

/// The lines of a text, as `str::lines` gives them: split at '\n', a '\r'
/// right before a '\n' removed, and no empty last line after a final newline.
pub open spec fn text_lines(s: Seq<char>) -> Seq<Seq<char>> {
    let parts = split_newlines(s);
    let ended = Seq::new((parts.len() - 1) as nat, |i: int| strip_cr(parts[i]));
    if parts.last().len() == 0 {
        ended
    } else {
        ended.push(parts.last())
    }
}

proof fn lemma_split_newlines_nonempty(s: Seq<char>)
    ensures
        split_newlines(s).len() >= 1,
    decreases s.len(),
{
    if s.len() > 0 {
        lemma_split_newlines_nonempty(s.drop_last());
    }
}

proof fn lemma_joined_push(lines: Seq<Seq<char>>, line: Seq<char>)
    requires
        lines.len() >= 1,
    ensures
        lines_joined(lines.push(line)) == lines_joined(lines) + seq!['\n'] + line,
{
    assert(lines.push(line).drop_last() =~= lines);
}

proof fn lemma_join_split(s: Seq<char>)
    ensures
        lines_joined(split_newlines(s)) == s,
    decreases s.len(),
{
    if s.len() > 0 {
        let prev = s.drop_last();
        lemma_join_split(prev);
        lemma_split_newlines_nonempty(prev);
        let p = split_newlines(prev);
        if s.last() == '\n' {
            lemma_joined_push(p, Seq::empty());
            assert(s =~= prev + seq!['\n'] + Seq::<char>::empty());
        } else {
            let q = p.update(p.len() - 1, p.last().push(s.last()));
            if p.len() == 1 {
                assert(q =~= seq![p[0].push(s.last())]);
                assert(s =~= prev.push(s.last()));
            } else {
                assert(q.drop_last() =~= p.drop_last());
                assert(lines_joined(q) == lines_joined(p.drop_last()) + seq!['\n'] + p.last().push(
                    s.last(),
                ));
                assert(s =~= prev.push(s.last()));
            }
        }
    }
}

proof fn lemma_parts_avoid(s: Seq<char>, c: char)
    requires
        !s.contains(c),
    ensures
        forall|i: int, j: int|
            0 <= i < split_newlines(s).len() && 0 <= j < split_newlines(s)[i].len()
                ==> #[trigger] split_newlines(s)[i][j] != c,
    decreases s.len(),
{
    if s.len() > 0 {
        let prev = s.drop_last();
        assert(!prev.contains(c)) by {
            if prev.contains(c) {
                let k = choose|k: int| 0 <= k < prev.len() && prev[k] == c;
                assert(s[k] == c);
            }
        }
        lemma_parts_avoid(prev, c);
        lemma_split_newlines_nonempty(prev);
        assert(s[s.len() - 1] == s.last());
    }
}

/// A text without carriage returns, split into lines and joined again with
/// newlines, is the text itself, less a final newline.
pub proof fn law_lines_rejoin(s: Seq<char>)
    requires
        !s.contains('\r'),
    ensures
        lines_joined(text_lines(s)) == if s.len() > 0 && s.last() == '\n' {
            s.drop_last()
        } else {
            s
        },
{
    let parts = split_newlines(s);
    lemma_split_newlines_nonempty(s);
    lemma_join_split(s);
    lemma_parts_avoid(s, '\r');
    let n = parts.len();
    let ended = Seq::new((n - 1) as nat, |i: int| strip_cr(parts[i]));
    assert(ended =~= parts.drop_last()) by {
        assert forall|i: int| 0 <= i < n - 1 implies ended[i] == parts.drop_last()[i] by {
            if parts[i].len() > 0 {
                assert(parts[i][parts[i].len() - 1] != '\r');
            }
        }
    }
    if s.len() > 0 && s.last() == '\n' {
        lemma_split_newlines_nonempty(s.drop_last());
        assert(parts.last() =~= Seq::<char>::empty());
        lemma_joined_push(parts.drop_last(), Seq::empty());
        assert(parts.drop_last().push(Seq::<char>::empty()) =~= parts);
        assert(s =~= lines_joined(parts.drop_last()) + seq!['\n']);
        assert(s.drop_last() =~= lines_joined(parts.drop_last()));
    } else if parts.last().len() == 0 {
        if n >= 2 {
            lemma_joined_push(parts.drop_last(), Seq::empty());
            assert(parts.drop_last().push(Seq::<char>::empty()) =~= parts);
            assert(s.len() > 0);
            assert(s.last() == '\n');
        } else {
            assert(s =~= parts[0]);
        }
    } else {
        assert(ended.push(parts.last()) =~= parts);
    }
}

/// `s` split at every `sep`, as `str::split(sep)` splits it.
pub open spec fn split_on(s: Seq<char>, sep: char) -> Seq<Seq<char>>
    decreases s.len(),
{
    if s.len() == 0 {
        seq![Seq::empty()]
    } else if s.last() == sep {
        split_on(s.drop_last(), sep).push(Seq::empty())
    } else {
        let parts = split_on(s.drop_last(), sep);
        parts.update(parts.len() - 1, parts.last().push(s.last()))
    }
}

/// Parts joined with `sep` between consecutive ones.
pub open spec fn joined_with(parts: Seq<Seq<char>>, sep: char) -> Seq<char>
    decreases parts.len(),
{
    if parts.len() == 0 {
        Seq::empty()
    } else if parts.len() == 1 {
        parts[0]
    } else {
        joined_with(parts.drop_last(), sep) + seq![sep] + parts.last()
    }
}

/// Whether `c` does not occur in `s`.
pub open spec fn free_of(s: Seq<char>, c: char) -> bool {
    forall|k: int| 0 <= k < s.len() ==> s[k] != c
}

proof fn lemma_split_on_nonempty(s: Seq<char>, sep: char)
    ensures
        split_on(s, sep).len() >= 1,
    decreases s.len(),
{
    if s.len() > 0 {
        lemma_split_on_nonempty(s.drop_last(), sep);
    }
}

proof fn lemma_split_on_append(s: Seq<char>, t: Seq<char>, sep: char)
    requires
        free_of(t, sep),
    ensures
        split_on(s + t, sep) == split_on(s, sep).update(
            split_on(s, sep).len() - 1,
            split_on(s, sep).last() + t,
        ),
    decreases t.len(),
{
    lemma_split_on_nonempty(s, sep);
    let p = split_on(s, sep);
    if t.len() == 0 {
        assert(s + t =~= s);
        assert(p.update(p.len() - 1, p.last() + t) =~= p);
    } else {
        let u = t.drop_last();
        assert(free_of(u, sep)) by {
            assert forall|k: int| 0 <= k < u.len() implies u[k] != sep by {
                assert(u[k] == t[k]);
            }
        }
        lemma_split_on_append(s, u, sep);
        assert((s + t).drop_last() =~= s + u);
        assert((s + t).last() == t[t.len() - 1]);
        let q = split_on(s + u, sep);
        assert((p.last() + u).push(t.last()) =~= p.last() + t);
        assert(q.len() == p.len());
        assert(q.update(q.len() - 1, q.last().push(t.last())) =~= p.update(
            p.len() - 1,
            p.last() + t,
        ));
    }
}

/// Parts that do not hold the separator, joined with it, split back into
/// exactly those parts.
pub proof fn law_split_joined_with(parts: Seq<Seq<char>>, sep: char)
    requires
        parts.len() >= 1,
        forall|i: int| 0 <= i < parts.len() ==> free_of(#[trigger] parts[i], sep),
    ensures
        split_on(joined_with(parts, sep), sep) == parts,
    decreases parts.len(),
{
    if parts.len() == 1 {
        lemma_split_on_append(Seq::empty(), parts[0], sep);
        assert(Seq::<char>::empty() + parts[0] =~= parts[0]);
        assert(seq![Seq::<char>::empty()].update(0, Seq::<char>::empty() + parts[0]) =~= parts);
    } else {
        let front = parts.drop_last();
        assert forall|i: int| 0 <= i < front.len() implies free_of(#[trigger] front[i], sep) by {
            assert(front[i] == parts[i]);
        }
        law_split_joined_with(front, sep);
        let j = joined_with(front, sep);
        let js = j + seq![sep];
        assert(js.drop_last() =~= j);
        assert(split_on(js, sep) == split_on(j, sep).push(Seq::empty()));
        assert(free_of(parts[parts.len() - 1], sep));
        lemma_split_on_append(js, parts.last(), sep);
        assert(Seq::<char>::empty() + parts.last() =~= parts.last());
        assert(front.push(Seq::empty()).update(front.len() as int, parts.last()) =~= parts);
    }
}

/// Joining one more part appends the separator and the part.
pub proof fn lemma_joined_with_push(parts: Seq<Seq<char>>, part: Seq<char>, sep: char)
    requires
        parts.len() >= 1,
    ensures
        joined_with(parts.push(part), sep) == joined_with(parts, sep) + seq![sep] + part,
{
    assert(parts.push(part).drop_last() =~= parts);
}

/// Whether a text holds no newline.
pub open spec fn no_newline(s: Seq<char>) -> bool {
    forall|k: int| 0 <= k < s.len() ==> s[k] != '\n'
}

/// Whether a text ends with a carriage return.
pub open spec fn ends_with_cr(s: Seq<char>) -> bool {
    s.len() > 0 && s.last() == '\r'
}

/// Two texts without newlines make a text without newlines.
pub proof fn lemma_no_newline_concat(a: Seq<char>, b: Seq<char>)
    requires
        no_newline(a),
        no_newline(b),
    ensures
        no_newline(a + b),
{
    assert forall|k: int| 0 <= k < (a + b).len() implies (a + b)[k] != '\n' by {
        if k < a.len() {
            assert((a + b)[k] == a[k]);
        } else {
            assert((a + b)[k] == b[k - a.len()]);
        }
    }
}

/// Decimal numbers hold no newline.
pub proof fn lemma_decimal_no_newline(n: nat)
    ensures
        no_newline(decimal(n)),
        decimal(n).len() > 0,
{
    law_decimal_reads_back(n);
    assert forall|k: int| 0 <= k < decimal(n).len() implies decimal(n)[k] != '\n' by {
        assert('0' <= decimal(n)[k] <= '9');
    }
}

/// The overflow note is one non-empty line when its label is.
pub proof fn lemma_overflow_note_one_line(hidden: nat, label: Seq<char>)
    requires
        no_newline(label),
    ensures
        no_newline(overflow_note(hidden, label)),
        overflow_note(hidden, label).len() > 0,
{
    reveal_strlit("... +");
    reveal_strlit(" more ");
    lemma_decimal_no_newline(hidden);
    assert(no_newline("... +"@));
    assert(no_newline(" more "@));
    lemma_no_newline_concat("... +"@, decimal(hidden));
    lemma_no_newline_concat("... +"@ + decimal(hidden), " more "@);
    lemma_no_newline_concat("... +"@ + decimal(hidden) + " more "@, label);
}

proof fn lemma_split_append(s: Seq<char>, t: Seq<char>)
    requires
        no_newline(t),
    ensures
        split_newlines(s + t) == split_newlines(s).update(
            split_newlines(s).len() - 1,
            split_newlines(s).last() + t,
        ),
    decreases t.len(),
{
    lemma_split_newlines_nonempty(s);
    let p = split_newlines(s);
    if t.len() == 0 {
        assert(s + t =~= s);
        assert(p.update(p.len() - 1, p.last() + t) =~= p);
    } else {
        let u = t.drop_last();
        assert(no_newline(u)) by {
            assert forall|k: int| 0 <= k < u.len() implies u[k] != '\n' by {
                assert(u[k] == t[k]);
            }
        }
        lemma_split_append(s, u);
        assert((s + t).drop_last() =~= s + u);
        assert((s + t).last() == t[t.len() - 1]);
        let q = split_newlines(s + u);
        assert(q.last() == p.last() + u);
        assert((p.last() + u).push(t.last()) =~= p.last() + t);
        assert(q.len() == p.len());
        assert(q.update(q.len() - 1, q.last().push(t.last())) =~= p.update(
            p.len() - 1,
            p.last() + t,
        ));
    }
}

pub proof fn lemma_split_joined(ls: Seq<Seq<char>>)
    requires
        ls.len() >= 1,
        forall|i: int| 0 <= i < ls.len() ==> no_newline(#[trigger] ls[i]),
    ensures
        split_newlines(lines_joined(ls)) == ls,
    decreases ls.len(),
{
    if ls.len() == 1 {
        lemma_split_append(Seq::empty(), ls[0]);
        assert(Seq::<char>::empty() + ls[0] =~= ls[0]);
        assert(seq![Seq::<char>::empty()].update(0, Seq::<char>::empty() + ls[0]) =~= ls);
    } else {
        let front = ls.drop_last();
        assert forall|i: int| 0 <= i < front.len() implies no_newline(#[trigger] front[i]) by {
            assert(front[i] == ls[i]);
        }
        lemma_split_joined(front);
        let j = lines_joined(front);
        let jn = j + seq!['\n'];
        assert(jn.drop_last() =~= j);
        assert(split_newlines(jn) == split_newlines(j).push(Seq::empty()));
        assert(no_newline(ls[ls.len() - 1]));
        lemma_split_append(jn, ls.last());
        assert(Seq::<char>::empty() + ls.last() =~= ls.last());
        assert(front.push(Seq::empty()).update(front.len() as int, ls.last()) =~= ls);
    }
}

/// Every line of a text is free of newlines, and a text has at most one line
/// more than it has newlines.
pub proof fn law_lines_have_no_newline(s: Seq<char>)
    ensures
        forall|i: int| 0 <= i < text_lines(s).len() ==> no_newline(#[trigger] text_lines(s)[i]),
        text_lines(s).len() <= split_newlines(s).len(),
        s.len() == 0 ==> text_lines(s).len() == 0,
{
    lemma_split_newlines_nonempty(s);
    lemma_parts_have_no_newline(s);
    let parts = split_newlines(s);
    assert forall|i: int| 0 <= i < text_lines(s).len() implies no_newline(
        #[trigger] text_lines(s)[i],
    ) by {
        let line = text_lines(s)[i];
        assert(no_newline(parts[i]));
        assert forall|k: int| 0 <= k < line.len() implies line[k] != '\n' by {
            assert(line[k] == parts[i][k]);
        }
    }
}

proof fn lemma_parts_have_no_newline(s: Seq<char>)
    ensures
        forall|i: int|
            0 <= i < split_newlines(s).len() ==> no_newline(#[trigger] split_newlines(s)[i]),
    decreases s.len(),
{
    if s.len() > 0 {
        let prev = s.drop_last();
        lemma_parts_have_no_newline(prev);
        lemma_split_newlines_nonempty(prev);
        let p = split_newlines(prev);
        assert forall|i: int|
            0 <= i < split_newlines(s).len() implies no_newline(#[trigger] split_newlines(s)[i]) by {
            if i < p.len() - 1 {
                assert(split_newlines(s)[i] == p[i]);
            } else if s.last() != '\n' && i == p.len() - 1 {
                let l = p.last().push(s.last());
                assert(split_newlines(s)[i] == l);
                assert forall|k: int| 0 <= k < l.len() implies l[k] != '\n' by {
                    if k < p.last().len() {
                        assert(l[k] == p[p.len() - 1][k]);
                    }
                }
            }
        }
    }
}

/// Lines without newlines, none but the last ending with a carriage return,
/// joined with newlines, split back into exactly those lines, less a final
/// empty one.
pub proof fn law_lines_of_joined(ls: Seq<Seq<char>>)
    requires
        ls.len() >= 1,
        forall|i: int| 0 <= i < ls.len() ==> no_newline(#[trigger] ls[i]),
        forall|i: int| 0 <= i < ls.len() - 1 ==> !ends_with_cr(#[trigger] ls[i]),
    ensures
        text_lines(lines_joined(ls)) == if ls.last().len() == 0 {
            ls.drop_last()
        } else {
            ls
        },
{
    lemma_split_joined(ls);
    let n = ls.len();
    let ended = Seq::new((n - 1) as nat, |i: int| strip_cr(ls[i]));
    assert(ended =~= ls.drop_last()) by {
        assert forall|i: int| 0 <= i < n - 1 implies ended[i] == ls.drop_last()[i] by {
            assert(!ends_with_cr(ls[i]));
        }
    }
    if ls.last().len() != 0 {
        assert(ended.push(ls.last()) =~= ls);
    }
}

/// The lines of a text.
pub fn lines(s: &str) -> (res: Vec<String>)
    ensures
        views(res@) == text_lines(s@),
{
    let chars = to_chars(s);
    let mut done: Vec<String> = Vec::new();
    let mut start: usize = 0;
    let mut i: usize = 0;
    proof {
        assert(chars@.take(0) =~= Seq::<char>::empty());
    }
    while i < chars.len()
        invariant
            start <= i <= chars@.len(),
            chars@ == s@,
            split_newlines(chars@.take(i as int)).len() == done@.len() + 1,
            forall|j: int|
                0 <= j < done@.len() ==> #[trigger] done@[j]@ == strip_cr(
                    split_newlines(chars@.take(i as int))[j],
                ),
            split_newlines(chars@.take(i as int)).last() == chars@.subrange(start as int, i as int),
        decreases chars@.len() - i,
    {
        let ghost prefix = chars@.take(i as int);
        let ghost next = chars@.take(i + 1);
        assert(next.drop_last() =~= prefix);
        assert(next.last() == chars@[i as int]);
        proof {
            lemma_split_newlines_nonempty(prefix);
        }
        if chars[i] == '\n' {
            let mut end = i;
            if end > start && chars[end - 1] == '\r' {
                end = end - 1;
            }
            let line = string_of(&chars, start, end);
            assert(line@ =~= strip_cr(chars@.subrange(start as int, i as int)));
            done.push(line);
            start = i + 1;
            i = i + 1;
            assert(chars@.subrange(start as int, i as int) =~= Seq::<char>::empty());
        } else {
            i = i + 1;
            assert(chars@.subrange(start as int, i as int) =~= chars@.subrange(
                start as int,
                i - 1,
            ).push(chars@[i - 1]));
        }
    }
    assert(chars@.take(chars@.len() as int) =~= chars@);
    if start < chars.len() {
        let last = string_of(&chars, start, chars.len());
        done.push(last);
    }
    assert(views(done@) =~= text_lines(s@));
    done
}

/// What follows the last occurrence of `sep` in `s` (all of `s` when `sep`
/// does not occur), as `s.rsplit(sep).next()` gives it.
pub open spec fn after_last(s: Seq<char>, sep: char) -> Seq<char>
    decreases s.len(),
{
    if s.len() == 0 {
        s
    } else if s.last() == sep {
        Seq::empty()
    } else {
        after_last(s.drop_last(), sep).push(s.last())
    }
}

/// What follows the last separator is an end of the text and holds no
/// separator.
pub proof fn law_after_last_is_separator_free_suffix(s: Seq<char>, sep: char)
    ensures
        after_last(s, sep).is_suffix_of(s),
        !after_last(s, sep).contains(sep),
    decreases s.len(),
{
    if s.len() > 0 && s.last() != sep {
        let prev = s.drop_last();
        law_after_last_is_separator_free_suffix(prev, sep);
        let r = after_last(prev, sep);
        assert(after_last(s, sep) == r.push(s.last()));
        assert(s.subrange(s.len() - r.len() - 1, s.len() as int) =~= r.push(s.last())) by {
            assert(prev.subrange(prev.len() - r.len(), prev.len() as int) =~= r);
        }
        assert(!r.push(s.last()).contains(sep)) by {
            if r.push(s.last()).contains(sep) {
                let k = choose|k: int| 0 <= k < r.len() + 1 && r.push(s.last())[k] == sep;
                assert(r[k] == sep);
            }
        }
    } else if s.len() > 0 {
        assert(s.subrange(s.len() as int, s.len() as int) =~= Seq::<char>::empty());
    }
}

/// What follows the last `sep` in `s`, or all of `s` when there is none.
pub fn last_segment(s: &str, sep: char) -> (res: String)
    ensures
        res@ == after_last(s@, sep),
{
    let chars = to_chars(s);
    let mut start: usize = chars.len();
    assert(chars@.take(start as int) =~= chars@);
    assert(chars@.skip(start as int) =~= Seq::<char>::empty());
    while start > 0 && chars[start - 1] != sep
        invariant
            start <= chars@.len(),
            chars@ == s@,
            after_last(s@, sep) == after_last(chars@.take(start as int), sep) + chars@.skip(
                start as int,
            ),
        decreases start,
    {
        let ghost prefix = chars@.take(start as int);
        assert(prefix.drop_last() =~= chars@.take(start - 1));
        assert(chars@.skip(start - 1) =~= seq![prefix.last()] + chars@.skip(start as int));
        start = start - 1;
    }
    if start > 0 {
        assert(chars@.take(start as int).drop_last() =~= chars@.take(start - 1));
    } else {
        assert(chars@.take(0) =~= Seq::<char>::empty());
    }
    assert(after_last(chars@.take(start as int), sep) =~= Seq::<char>::empty());
    string_of(&chars, start, chars.len())
}

/// The date part of an ISO 8601 timestamp: its first ten characters, or the
/// whole text when it is shorter.
pub open spec fn iso_date(date: Seq<char>) -> Seq<char> {
    if date.len() >= 10 {
        date.take(10)
    } else {
        date
    }
}

/// The date part of a timestamp is a beginning of it, at most ten characters
/// long, and all of it when it is shorter.
pub proof fn law_iso_date_is_short_prefix(date: Seq<char>)
    ensures
        iso_date(date).is_prefix_of(date),
        iso_date(date).len() <= 10,
        date.len() >= 10 ==> iso_date(date).len() == 10,
        date.len() <= 10 ==> iso_date(date) == date,
{
}

/// Cuts an ISO 8601 timestamp down to its date ("2024-01-15T10:30:00Z" gives
/// "2024-01-15").
pub fn truncate_iso_date(date: &str) -> (res: String)
    ensures
        res@ == iso_date(date@),
{
    let chars = to_chars(date);
    if chars.len() >= 10 {
        string_of(&chars, 0, 10)
    } else {
        assert(chars@.subrange(0, chars@.len() as int) =~= chars@);
        string_of(&chars, 0, chars.len())
    }
}

/// Whether `s` begins with `prefix`.
pub fn starts_with(s: &str, prefix: &str) -> (res: bool)
    ensures
        res == prefix@.is_prefix_of(s@),
{
    let a = to_chars(s);
    let b = to_chars(prefix);
    if b.len() > a.len() {
        return false;
    }
    let mut i: usize = 0;
    while i < b.len()
        invariant
            b@.len() <= a@.len(),
            a@ == s@,
            b@ == prefix@,
            i <= b@.len(),
            forall|j: int| 0 <= j < i ==> a@[j] == b@[j],
        decreases b@.len() - i,
    {
        if a[i] != b[i] {
            return false;
        }
        i = i + 1;
    }
    true
}

/// The line that reports how many items were left out.
pub open spec fn overflow_note(hidden: nat, label: Seq<char>) -> Seq<char> {
    "... +"@ + decimal(hidden) + " more "@ + label
}

/// Items one per line, followed by a note of how many were left out when
/// `total` exceeds `max`.
pub open spec fn with_overflow(items: Seq<Seq<char>>, total: nat, max: nat, label: Seq<char>) -> Seq<char> {
    if total > max {
        lines_joined(items) + seq!['\n'] + overflow_note((total - max) as nat, label)
    } else {
        lines_joined(items)
    }
}

/// No note is added while the total stays within the limit; past it, the
/// joined items come first, unchanged, and one note line follows.
pub proof fn law_overflow_note_only_past_limit(
    items: Seq<Seq<char>>,
    total: nat,
    max: nat,
    label: Seq<char>,
)
    ensures
        total <= max ==> with_overflow(items, total, max, label) == lines_joined(items),
        lines_joined(items).is_prefix_of(with_overflow(items, total, max, label)),
{
    let joined = lines_joined(items);
    let full = with_overflow(items, total, max, label);
    assert(full.subrange(0, joined.len() as int) =~= joined);
}

/// A line that reads back as itself among others: non-empty, without a
/// newline, not ending with a carriage return.
pub open spec fn plain_line(l: Seq<char>) -> bool {
    l.len() > 0 && no_newline(l) && !ends_with_cr(l)
}

/// Past the limit the text ends with a line counting the `total - max` items
/// left out.
pub proof fn law_overflow_note_at_end(items: Seq<Seq<char>>, total: nat, max: nat, label: Seq<char>)
    ensures
        total > max ==> (seq!['\n'] + overflow_note((total - max) as nat, label)).is_suffix_of(
            with_overflow(items, total, max, label),
        ),
{
    if total > max {
        let note = seq!['\n'] + overflow_note((total - max) as nat, label);
        let full = with_overflow(items, total, max, label);
        assert(full =~= lines_joined(items) + note);
        assert(full.subrange(full.len() - note.len(), full.len() as int) =~= note);
    }
}

/// Plain item lines read back one by one, followed by the note line when the
/// total exceeds the limit.
pub proof fn law_overflow_lines(items: Seq<Seq<char>>, total: nat, max: nat, label: Seq<char>)
    requires
        forall|i: int| 0 <= i < items.len() ==> plain_line(#[trigger] items[i]),
        total > max ==> items.len() > 0,
        no_newline(label),
    ensures
        text_lines(with_overflow(items, total, max, label)) == if total > max {
            items.push(overflow_note((total - max) as nat, label))
        } else {
            items
        },
{
    if total > max {
        let note = overflow_note((total - max) as nat, label);
        lemma_overflow_note_one_line((total - max) as nat, label);
        let ls = items.push(note);
        lemma_joined_push(items, note);
        assert forall|i: int| 0 <= i < ls.len() implies no_newline(#[trigger] ls[i]) by {
            if i < items.len() {
                assert(ls[i] == items[i]);
            }
        }
        assert forall|i: int| 0 <= i < ls.len() - 1 implies !ends_with_cr(#[trigger] ls[i]) by {
            assert(ls[i] == items[i]);
        }
        law_lines_of_joined(ls);
    } else if items.len() == 0 {
        law_lines_have_no_newline(Seq::empty());
        assert(text_lines(Seq::empty()) =~= items);
    } else {
        assert forall|i: int| 0 <= i < items.len() implies no_newline(#[trigger] items[i]) by {
            assert(plain_line(items[i]));
        }
        assert(plain_line(items[items.len() - 1]));
        law_lines_of_joined(items);
    }
}

/// Joins the shown items with newlines and, when `total` exceeds `max`, adds
/// a line "... +N more <label>" for the `total - max` items not shown.
pub fn join_with_overflow(items: &Vec<String>, total: usize, max: usize, label: &str) -> (res: String)
    ensures
        res@ == with_overflow(views(items@), total as nat, max as nat, label@),
{
    let mut out = join_lines(items);
    if total > max {
        let ghost joined = out@;
        push_str(&mut out, "\n... +");
        push_decimal(&mut out, (total - max) as u64);
        push_str(&mut out, " more ");
        push_str(&mut out, label);
        proof {
            reveal_strlit("\n... +");
            reveal_strlit("... +");
            assert(out@ =~= with_overflow(views(items@), total as nat, max as nat, label@));
        }
    }
    out
}

} // verus!
