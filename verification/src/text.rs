//! Text building blocks of the linker script generator, specified over sequences of characters.
use vstd::prelude::*;
use vstd::utf8::*;

verus! {

/// `String::push` adds one character at the end of the string.
pub assume_specification[ String::push ](s: &mut String, c: char)
    ensures
        final(s)@ == old(s)@.push(c),
;

/// The characters of each string of a list.
pub open spec fn views(list: Seq<String>) -> Seq<Seq<char>> {
    Seq::new(list.len(), |i: int| list[i]@)
}

/// The parts one after another, with `sep` between neighbours.
pub open spec fn joined(parts: Seq<Seq<char>>, sep: Seq<char>) -> Seq<char>
    decreases parts.len(),
{
    if parts.len() == 0 {
        Seq::empty()
    } else {
        let before = if parts.len() > 1 {
            joined(parts.drop_last(), sep) + sep
        } else {
            Seq::empty()
        };
        before + parts.last()
    }
}

/// One upper case hexadecimal digit.
pub open spec fn hex_digit(d: int) -> char {
    if d < 10 {
        (48 + d) as char
    } else {
        (55 + d) as char
    }
}

/// The upper case hexadecimal digits of a number, without leading zeros.
pub open spec fn hex_digits(n: int) -> Seq<char>
    decreases n,
{
    if n < 16 {
        seq![hex_digit(n)]
    } else {
        hex_digits(n / 16).push(hex_digit(n % 16))
    }
}

/// A number the way the linker script prints it: `0x` and upper case digits.
pub open spec fn hex_text(n: int) -> Seq<char> {
    "0x"@ + hex_digits(n)
}

/// The number that a single upper case hexadecimal digit stands for.
pub open spec fn digit_value(c: char) -> int {
    if c as int <= 57 {
        c as int - 48
    } else {
        c as int - 55
    }
}

/// The number that a run of upper case hexadecimal digits stands for.
pub open spec fn digits_value(s: Seq<char>) -> int
    decreases s.len(),
{
    if s.len() == 0 {
        0
    } else {
        digits_value(s.drop_last()) * 16 + digit_value(s.last())
    }
}

/// What is left of a text once all its leading `c` are gone.
pub open spec fn trimmed_start(s: Seq<char>, c: char) -> Seq<char>
    decreases s.len(),
{
    if s.len() > 0 && s[0] == c {
        trimmed_start(s.skip(1), c)
    } else {
        s
    }
}

/// The text with every occurrence of `pat`, found from left to right, put as `to`.
pub open spec fn replaced(s: Seq<char>, pat: Seq<char>, to: Seq<char>) -> Seq<char>
    decreases s.len(),
{
    if s.len() == 0 || pat.len() == 0 {
        s
    } else if pat.is_prefix_of(s) {
        to + replaced(s.skip(pat.len() as int), pat, to)
    } else {
        seq![s[0]] + replaced(s.skip(1), pat, to)
    }
}

/// Whether two texts hold the same characters.
pub fn text_eq(a: &str, b: &str) -> (same: bool)
    ensures
        same == (a@ == b@),
{
    broadcast use encode_utf8_decode_utf8;

    let x = a.as_bytes();
    let y = b.as_bytes();
    if x.len() != y.len() {
        return false;
    }
    let mut i: usize = 0;
    while i < x.len()
        invariant
            i <= x@.len(),
            x@.len() == y@.len(),
            x@ == encode_utf8(a@),
            y@ == encode_utf8(b@),
            forall|j: int| 0 <= j < i ==> x@[j] == y@[j],
        decreases x@.len() - i,
    {
        if x[i] != y[i] {
            return false;
        }
        i += 1;
    }
    assert(x@ =~= y@);
    assert(decode_utf8(encode_utf8(a@)) == a@);
    assert(decode_utf8(encode_utf8(b@)) == b@);
    true
}

/// The characters of a text as a vector.
pub fn chars_of(s: &str) -> (chars: Vec<char>)
    ensures
        chars@ == s@,
{
    let mut chars: Vec<char> = Vec::new();
    for c in it: s.chars()
        invariant
            it.seq() == s@,
            chars@ == s@.take(it.index()),
    {
        chars.push(c);
    }
    chars
}

/// Joins the parts with `sep` between neighbours.
pub fn join(parts: &[String], sep: &str) -> (text: String)
    ensures
        text@ == joined(views(parts@), sep@),
{
    let mut text = String::new();
    let mut i: usize = 0;
    proof {
        assert(views(parts@).take(0) =~= Seq::empty());
    }
    while i < parts.len()
        invariant
            i <= parts@.len(),
            text@ == joined(views(parts@).take(i as int), sep@),
        decreases parts@.len() - i,
    {
        proof {
            assert(views(parts@).take(i + 1).drop_last() =~= views(parts@).take(i as int));
        }
        if i > 0 {
            text.append(sep);
        }
        text.append(parts[i].as_str());
        proof {
            assert(text@ =~= joined(views(parts@).take(i + 1), sep@));
        }
        i += 1;
    }
    proof {
        assert(views(parts@).take(i as int) =~= views(parts@));
    }
    text
}

/// Adds the hexadecimal digits of `n` at the end of `text`.
fn push_hex_digits(text: &mut String, n: u64)
    ensures
        final(text)@ == old(text)@ + hex_digits(n as int),
    decreases n,
{
    let ghost before = text@;
    if n >= 16 {
        push_hex_digits(text, n / 16);
    }
    let d: u8 = (n % 16) as u8;
    let c: char = if d < 10 {
        (48 + d) as char
    } else {
        (55 + d) as char
    };
    text.push(c);
    proof {
        assert(text@ =~= before + hex_digits(n as int));
    }
}

/// Prints a number as `0x` and upper case hexadecimal digits.
pub fn upper_hex(n: u64) -> (text: String)
    ensures
        text@ == hex_text(n as int),
{
    let mut text = "0x".to_owned();
    push_hex_digits(&mut text, n);
    text
}

/// Drops all leading `c`.
pub fn trim_start(s: &str, c: char) -> (rest: String)
    ensures
        rest@ == trimmed_start(s@, c),
{
    let chars = chars_of(s);
    let mut rest = String::new();
    let mut i: usize = 0;
    proof {
        assert(s@.skip(0) =~= s@);
    }
    while i < chars.len() && chars[i] == c
        invariant
            i <= chars@.len(),
            chars@ == s@,
            trimmed_start(s@, c) == trimmed_start(s@.skip(i as int), c),
        decreases chars@.len() - i,
    {
        proof {
            assert(s@.skip(i as int).skip(1) =~= s@.skip(i + 1));
        }
        i += 1;
    }
    let ghost start = i as int;
    while i < chars.len()
        invariant
            0 <= start <= i <= chars@.len(),
            chars@ == s@,
            rest@ == s@.subrange(start, i as int),
        decreases chars@.len() - i,
    {
        rest.push(chars[i]);
        proof {
            assert(rest@ =~= s@.subrange(start, i + 1));
        }
        i += 1;
    }
    proof {
        assert(rest@ =~= s@.skip(start));
    }
    rest
}

/// Whether `pat` stands in `chars` at position `at`.
fn matches_at(chars: &Vec<char>, pat: &Vec<char>, at: usize) -> (found: bool)
    requires
        at <= chars@.len(),
    ensures
        found == pat@.is_prefix_of(chars@.skip(at as int)),
{
    if pat.len() > chars.len() - at {
        return false;
    }
    let mut k: usize = 0;
    while k < pat.len()
        invariant
            k <= pat@.len(),
            at + pat@.len() <= chars.len(),
            forall|j: int| 0 <= j < k ==> chars@[at + j] == pat@[j],
        decreases pat@.len() - k,
    {
        if chars[at + k] != pat[k] {
            proof {
                assert(chars@.skip(at as int)[k as int] != pat@[k as int]);
            }
            return false;
        }
        k += 1;
    }
    proof {
        assert forall|j: int| 0 <= j < pat@.len() implies chars@.skip(at as int)[j] == pat@[j] by {
            assert(chars@[at + j] == pat@[j]);
        }
        assert(pat@ =~= chars@.skip(at as int).subrange(0, pat@.len() as int));
    }
    true
}

/// Puts `to` in place of every occurrence of `pat`, found from left to right.
pub fn replace(s: &str, pat: &str, to: &str) -> (text: String)
    requires
        pat@.len() > 0,
    ensures
        text@ == replaced(s@, pat@, to@),
{
    let chars = chars_of(s);
    let pattern = chars_of(pat);
    let mut text = String::new();
    let mut i: usize = 0;
    proof {
        assert(s@.skip(0) =~= s@);
        assert(text@ + replaced(s@.skip(0), pat@, to@) =~= replaced(s@, pat@, to@));
    }
    while i < chars.len()
        invariant
            i <= chars@.len(),
            chars@ == s@,
            pattern@ == pat@,
            pat@.len() > 0,
            replaced(s@, pat@, to@) == text@ + replaced(s@.skip(i as int), pat@, to@),
        decreases chars@.len() - i,
    {
        let ghost before = text@;
        let ghost rest = s@.skip(i as int);
        if matches_at(&chars, &pattern, i) {
            text.append(to);
            proof {
                assert(rest.skip(pat@.len() as int) =~= s@.skip(i + pat@.len()));
                assert(replaced(s@, pat@, to@) =~= text@ + replaced(
                    s@.skip(i + pat@.len()),
                    pat@,
                    to@,
                ));
            }
            i += pattern.len();
        } else {
            text.push(chars[i]);
            proof {
                assert(rest.skip(1) =~= s@.skip(i + 1));
                assert(replaced(s@, pat@, to@) =~= text@ + replaced(s@.skip(i + 1), pat@, to@));
            }
            i += 1;
        }
    }
    proof {
        assert(s@.skip(i as int) =~= Seq::empty());
        assert(text@ =~= replaced(s@, pat@, to@));
    }
    text
}

/// A printed number reads back as the number: the digits of `n` have the value `n`.
pub proof fn law_hex_reads_back(n: int)
    requires
        n >= 0,
    ensures
        digits_value(hex_digits(n)) == n,
        hex_digits(n).len() > 0,
        n > 0 ==> hex_digits(n)[0] != '0',
    decreases n,
{
    if n < 16 {
        assert(hex_digits(n).drop_last() =~= Seq::empty());
        assert(digits_value(hex_digits(n).drop_last()) == 0);
    } else {
        law_hex_reads_back(n / 16);
        assert(hex_digits(n).drop_last() =~= hex_digits(n / 16));
    }
}

/// A text in which the first character of the pattern does not occur stays as it is.
pub proof fn law_replace_absent(s: Seq<char>, pat: Seq<char>, to: Seq<char>)
    requires
        pat.len() > 0,
        !s.contains(pat[0]),
    ensures
        replaced(s, pat, to) == s,
    decreases s.len(),
{
    if s.len() > 0 {
        assert(s[0] != pat[0]);
        assert(!s.skip(1).contains(pat[0])) by {
            if s.skip(1).contains(pat[0]) {
                let k = choose|k: int| 0 <= k < s.skip(1).len() && s.skip(1)[k] == pat[0];
                assert(s[k + 1] == pat[0]);
            }
        }
        law_replace_absent(s.skip(1), pat, to);
        assert(seq![s[0]] + s.skip(1) =~= s);
    }
}

/// The leftmost occurrence of a pattern is replaced where it stands: what is before it stays, and
/// what is after it is treated on its own.
pub proof fn law_replace_leftmost(before: Seq<char>, after: Seq<char>, pat: Seq<char>, to: Seq<char>)
    requires
        pat.len() > 0,
        !before.contains(pat[0]),
    ensures
        replaced(before + pat + after, pat, to) == before + to + replaced(after, pat, to),
    decreases before.len(),
{
    let s = before + pat + after;
    if before.len() == 0 {
        assert(pat =~= s.subrange(0, pat.len() as int));
        assert(s.skip(pat.len() as int) =~= after);
        assert(before + to =~= to);
    } else {
        assert(s[0] == before[0]);
        assert(before.contains(before[0]));
        assert(!pat.is_prefix_of(s));
        let rest = before.skip(1);
        assert(!rest.contains(pat[0])) by {
            if rest.contains(pat[0]) {
                let k = choose|k: int| 0 <= k < rest.len() && rest[k] == pat[0];
                assert(before[k + 1] == pat[0]);
            }
        }
        law_replace_leftmost(rest, after, pat, to);
        assert(s.skip(1) =~= rest + pat + after);
        assert(seq![before[0]] + (rest + to + replaced(after, pat, to)) =~= before + to + replaced(
            after,
            pat,
            to,
        ));
    }
}

/// Whether a pattern stands somewhere in a text.
pub open spec fn occurs(pat: Seq<char>, s: Seq<char>) -> bool {
    exists|p: int| 0 <= p <= s.len() && pat.is_prefix_of(#[trigger] s.skip(p))
}

/// Whether a text is the name of a variable: a dollar sign, and more behind it, but no other one.
pub open spec fn is_variable(v: Seq<char>) -> bool {
    v.len() > 1 && v[0] == '$' && !v.skip(1).contains('$')
}

/// Whether the character at `p` cannot be the start of a variable, whatever is put in for others:
/// it is the last one, or the next one is neither a dollar sign nor the second of a variable.
pub open spec fn apart(s: Seq<char>, p: int, all: Seq<Seq<char>>) -> bool {
    p + 1 < s.len() ==> s[p + 1] != '$' && forall|i: int|
        0 <= i < all.len() ==> s[p + 1] != (#[trigger] all[i])[1]
}

/// Whether one of the variables stands at position `p`.
pub open spec fn begins(s: Seq<char>, p: int, vars: Seq<Seq<char>>) -> bool {
    exists|i: int| 0 <= i < vars.len() && (#[trigger] vars[i]).is_prefix_of(s.skip(p))
}

/// Whether every dollar sign of a text is the start of one of `vars`, or stands apart from `all`.
pub open spec fn marked(s: Seq<char>, vars: Seq<Seq<char>>, all: Seq<Seq<char>>) -> bool {
    forall|p: int|
        0 <= p < s.len() && #[trigger] s[p] == '$' ==> apart(s, p, all) || begins(s, p, vars)
}

/// A beginning in which a pattern cannot start is kept by replacing.
proof fn lemma_replace_behind(before: Seq<char>, after: Seq<char>, pat: Seq<char>, to: Seq<char>)
    requires
        pat.len() > 0,
        !before.contains(pat[0]),
    ensures
        replaced(before + after, pat, to) == before + replaced(after, pat, to),
    decreases before.len(),
{
    let s = before + after;
    if before.len() == 0 {
        assert(s =~= after);
        assert(before + replaced(after, pat, to) =~= replaced(after, pat, to));
    } else {
        let rest = before.skip(1);
        assert(s[0] == before[0]);
        assert(before.contains(before[0]));
        assert(!pat.is_prefix_of(s));
        assert(!rest.contains(pat[0])) by {
            if rest.contains(pat[0]) {
                let k = choose|k: int| 0 <= k < rest.len() && rest[k] == pat[0];
                assert(before[k + 1] == pat[0]);
            }
        }
        lemma_replace_behind(rest, after, pat, to);
        assert(s.skip(1) =~= rest + after);
        assert(seq![before[0]] + (rest + replaced(after, pat, to)) =~= before + replaced(
            after,
            pat,
            to,
        ));
    }
}

/// The end of a marked text is marked.
proof fn lemma_marked_skip(s: Seq<char>, k: int, vars: Seq<Seq<char>>, all: Seq<Seq<char>>)
    requires
        0 <= k <= s.len(),
        marked(s, vars, all),
    ensures
        marked(s.skip(k), vars, all),
{
    let t = s.skip(k);
    assert forall|p: int| 0 <= p < t.len() && #[trigger] t[p] == '$' implies apart(t, p, all)
        || begins(t, p, vars) by {
        assert(s[p + k] == '$');
        assert(t.skip(p) =~= s.skip(p + k));
    }
}

/// A text behind one without dollar signs stays marked.
proof fn lemma_marked_behind(
    head: Seq<char>,
    tail: Seq<char>,
    vars: Seq<Seq<char>>,
    all: Seq<Seq<char>>,
)
    requires
        !head.contains('$'),
        marked(tail, vars, all),
    ensures
        marked(head + tail, vars, all),
{
    let s = head + tail;
    assert forall|p: int| 0 <= p < s.len() && #[trigger] s[p] == '$' implies apart(s, p, all)
        || begins(s, p, vars) by {
        if p < head.len() {
            assert(head.contains(head[p]));
        } else {
            assert(tail[p - head.len()] == '$');
            assert(s.skip(p) =~= tail.skip(p - head.len()));
        }
    }
}

/// Putting in the first variable leaves a text that is marked with the other ones, if what is put
/// in holds no dollar sign.
proof fn lemma_put_in(s: Seq<char>, vars: Seq<Seq<char>>, all: Seq<Seq<char>>, to: Seq<char>)
    requires
        vars.len() > 0,
        forall|i: int| 0 <= i < vars.len() ==> is_variable(#[trigger] vars[i]),
        !to.contains('$'),
        marked(s, vars, all),
    ensures
        marked(replaced(s, vars[0], to), vars.skip(1), all),
    decreases s.len(),
{
    let pat = vars[0];
    let others = vars.skip(1);
    let result = replaced(s, pat, to);
    assert(is_variable(vars[0]));
    if s.len() == 0 {
    } else if pat.is_prefix_of(s) {
        let rest = s.skip(pat.len() as int);
        lemma_marked_skip(s, pat.len() as int, vars, all);
        lemma_put_in(rest, vars, all, to);
        lemma_marked_behind(to, replaced(rest, pat, to), others, all);
    } else {
        let rest = s.skip(1);
        let tail = replaced(rest, pat, to);
        lemma_marked_skip(s, 1, vars, all);
        lemma_put_in(rest, vars, all, to);
        let head = seq![s[0]];
        if s[0] != '$' {
            lemma_marked_behind(head, tail, others, all);
        } else {
            assert(s.skip(0) =~= s);
            if apart(s, 0, all) {
                if s.len() > 1 {
                    assert(rest[0] == s[1]);
                    assert(!pat.is_prefix_of(rest));
                    assert(tail[0] == s[1]);
                    assert(result[1] == s[1]);
                } else {
                    assert(rest.len() == 0);
                    assert(tail.len() == 0);
                }
                assert(apart(result, 0, all));
            } else {
                let i = choose|i: int|
                    0 <= i < vars.len() && (#[trigger] vars[i]).is_prefix_of(s.skip(0));
                let v = vars[i];
                assert(is_variable(vars[i]));
                assert(i > 0);
                let end = s.skip(v.len() as int);
                let body = v.skip(1);
                assert(s =~= v + end);
                assert(rest =~= body + end);
                lemma_replace_behind(body, end, pat, to);
                assert(result =~= v + replaced(end, pat, to));
                assert(v =~= result.skip(0).subrange(0, v.len() as int));
                assert(others[i - 1].is_prefix_of(result.skip(0)));
                assert(begins(result, 0, others));
            }
            assert forall|p: int|
                0 <= p < result.len() && #[trigger] result[p] == '$' implies apart(result, p, all)
                || begins(result, p, others) by {
                if p > 0 {
                    assert(tail[p - 1] == '$');
                    assert(result.skip(p) =~= tail.skip(p - 1));
                }
            }
        }
    }
}

/// The text with each variable put as its value, one after another.
pub open spec fn put_in(s: Seq<char>, vars: Seq<Seq<char>>, values: Seq<Seq<char>>) -> Seq<char>
    decreases vars.len(),
{
    if vars.len() == 0 {
        s
    } else {
        put_in(replaced(s, vars[0], values[0]), vars.skip(1), values.skip(1))
    }
}

/// A marked text stays marked while its variables are put in.
proof fn lemma_put_in_all(
    s: Seq<char>,
    vars: Seq<Seq<char>>,
    values: Seq<Seq<char>>,
    all: Seq<Seq<char>>,
)
    requires
        vars.len() == values.len(),
        forall|i: int| 0 <= i < vars.len() ==> is_variable(#[trigger] vars[i]),
        forall|i: int| 0 <= i < values.len() ==> !(#[trigger] values[i]).contains('$'),
        marked(s, vars, all),
    ensures
        marked(put_in(s, vars, values), Seq::empty(), all),
    decreases vars.len(),
{
    if vars.len() == 0 {
        assert(vars =~= Seq::empty());
    } else {
        assert(!values[0].contains('$'));
        lemma_put_in(s, vars, all, values[0]);
        assert forall|i: int| 0 <= i < vars.skip(1).len() implies is_variable(
            #[trigger] vars.skip(1)[i],
        ) by {
            assert(is_variable(vars[i + 1]));
        }
        assert forall|i: int| 0 <= i < values.skip(1).len() implies !(
        #[trigger] values.skip(1)[i]).contains('$') by {
            assert(!values[i + 1].contains('$'));
        }
        lemma_put_in_all(replaced(s, vars[0], values[0]), vars.skip(1), values.skip(1), all);
    }
}

/// Once all variables are put in, none of them is left, if every dollar sign was the start of a
/// variable or stood apart from them, and no value holds one.
pub proof fn law_no_variable_left(
    s: Seq<char>,
    vars: Seq<Seq<char>>,
    values: Seq<Seq<char>>,
    k: int,
)
    requires
        vars.len() == values.len(),
        forall|i: int| 0 <= i < vars.len() ==> is_variable(#[trigger] vars[i]),
        forall|i: int| 0 <= i < values.len() ==> !(#[trigger] values[i]).contains('$'),
        marked(s, vars, vars),
        0 <= k < vars.len(),
    ensures
        !occurs(vars[k], put_in(s, vars, values)),
{
    lemma_put_in_all(s, vars, values, vars);
    let result = put_in(s, vars, values);
    if occurs(vars[k], result) {
        let p = choose|p: int|
            0 <= p <= result.len() && vars[k].is_prefix_of(#[trigger] result.skip(p));
        assert(is_variable(vars[k]));
        assert(result.skip(p)[0] == vars[k][0]);
        assert(result.skip(p)[1] == vars[k][1]);
        assert(result[p] == '$');
        assert(apart(result, p, vars));
    }
}

/// A printed number holds no dollar sign.
pub proof fn law_hex_holds_no_dollar(n: int)
    requires
        n >= 0,
    ensures
        !hex_text(n).contains('$'),
{
    reveal_strlit("0x");
    lemma_hex_digits_no_dollar(n);
    let s = hex_text(n);
    if s.contains('$') {
        let k = choose|k: int| 0 <= k < s.len() && s[k] == '$';
        if k >= 2 {
            assert(hex_digits(n)[k - 2] == '$');
        }
    }
}

/// Hexadecimal digits are no dollar signs.
proof fn lemma_hex_digits_no_dollar(n: int)
    requires
        n >= 0,
    ensures
        forall|k: int| 0 <= k < hex_digits(n).len() ==> #[trigger] hex_digits(n)[k] != '$',
    decreases n,
{
    if n >= 16 {
        lemma_hex_digits_no_dollar(n / 16);
        assert forall|k: int| 0 <= k < hex_digits(n).len() implies #[trigger] hex_digits(n)[k]
            != '$' by {
            if k < hex_digits(n / 16).len() {
                assert(hex_digits(n)[k] == hex_digits(n / 16)[k]);
            }
        }
    }
}

/// A text in which a pattern does not stand anywhere stays as it is.
pub proof fn law_replace_none(s: Seq<char>, pat: Seq<char>, to: Seq<char>)
    requires
        pat.len() > 0,
        forall|q: int|
            0 <= q && q + pat.len() <= s.len() ==> #[trigger] s.subrange(q, q + pat.len()) != pat,
    ensures
        replaced(s, pat, to) == s,
    decreases s.len(),
{
    if s.len() > 0 {
        if pat.is_prefix_of(s) {
            assert(s.subrange(0, 0int + pat.len()) == pat);
        }
        let rest = s.skip(1);
        assert forall|q: int| 0 <= q && q + pat.len() <= rest.len() implies #[trigger] rest.subrange(
            q,
            q + pat.len(),
        ) != pat by {
            assert(rest.subrange(q, q + pat.len()) =~= s.subrange(q + 1, (q + 1) + pat.len()));
        }
        law_replace_none(rest, pat, to);
        assert(seq![s[0]] + rest =~= s);
    }
}

/// Where a pattern stands first in a text, at `p`, it is replaced; what is before it stays, and what
/// is after it is treated on its own.
pub proof fn law_replace_first(s: Seq<char>, pat: Seq<char>, to: Seq<char>, p: int)
    requires
        pat.len() > 0,
        0 <= p,
        p + pat.len() <= s.len(),
        s.subrange(p, p + pat.len()) == pat,
        forall|q: int| 0 <= q < p ==> #[trigger] s.subrange(q, q + pat.len()) != pat,
    ensures
        replaced(s, pat, to) == s.take(p) + to + replaced(s.skip(p + pat.len()), pat, to),
    decreases p,
{
    if p == 0 {
        assert(pat.is_prefix_of(s));
        assert(s.take(0) + to =~= to);
    } else {
        if pat.is_prefix_of(s) {
            assert(s.subrange(0, 0int + pat.len()) == pat);
        }
        let rest = s.skip(1);
        assert(rest.subrange(p - 1, (p - 1) + pat.len()) =~= s.subrange(p, p + pat.len()));
        assert forall|q: int| 0 <= q < p - 1 implies #[trigger] rest.subrange(q, q + pat.len())
            != pat by {
            assert(rest.subrange(q, q + pat.len()) =~= s.subrange(q + 1, (q + 1) + pat.len()));
        }
        law_replace_first(rest, pat, to, p - 1);
        assert(rest.skip((p - 1) + pat.len()) =~= s.skip(p + pat.len()));
        let end = replaced(s.skip(p + pat.len()), pat, to);
        assert(seq![s[0]] + (rest.take(p - 1) + to + end) =~= s.take(p) + to + end);
    }
}

/// Nothing joined is nothing, one part joined is that part, and two lists are joined with the
/// separator between them.
pub proof fn law_joined(a: Seq<Seq<char>>, b: Seq<Seq<char>>, part: Seq<char>, sep: Seq<char>)
    ensures
        joined(Seq::empty(), sep) == Seq::<char>::empty(),
        joined(seq![part], sep) == part,
        a.len() > 0 && b.len() > 0 ==> joined(a + b, sep) == joined(a, sep) + sep + joined(b, sep),
    decreases b.len(),
{
    assert(seq![part].last() == part);
    assert(Seq::<char>::empty() + part =~= part);
    if a.len() > 0 && b.len() > 0 {
        let all = a + b;
        assert(all.drop_last() =~= a + b.drop_last());
        if b.len() == 1 {
            assert(all.drop_last() =~= a);
            assert(joined(b, sep) =~= b.last());
        } else {
            law_joined(a, b.drop_last(), part, sep);
            assert(joined(all, sep) =~= joined(a, sep) + sep + joined(b, sep));
        }
    }
}

/// Of a text just a run of leading `c` is dropped: what is left does not begin with `c`.
pub proof fn law_trimmed(s: Seq<char>, c: char)
    ensures
        exists|k: int|
            #![trigger s.skip(k)]
            0 <= k <= s.len() && trimmed_start(s, c) == s.skip(k) && (forall|j: int|
                0 <= j < k ==> s[j] == c) && (k < s.len() ==> s[k] != c),
    decreases s.len(),
{
    if s.len() > 0 && s[0] == c {
        let rest = s.skip(1);
        law_trimmed(rest, c);
        let k = choose|k: int|
            #![trigger rest.skip(k)]
            0 <= k <= rest.len() && trimmed_start(rest, c) == rest.skip(k) && (forall|j: int|
                0 <= j < k ==> rest[j] == c) && (k < rest.len() ==> rest[k] != c);
        assert(rest.skip(k) =~= s.skip(k + 1));
        assert forall|j: int| 0 <= j < k + 1 implies s[j] == c by {
            if j > 0 {
                assert(rest[j - 1] == c);
            }
        }
    } else {
        assert(s.skip(0) =~= s);
    }
}

/// A printed number is `0x` and then digits from `0` to `9` and from `A` to `F` only, which have the
/// number as their value; a number that is not zero does not begin with the digit `0`.
pub proof fn law_hex_text(n: int)
    requires
        n >= 0,
    ensures
        hex_text(n).len() > 2,
        hex_text(n)[0] == '0',
        hex_text(n)[1] == 'x',
        forall|k: int|
            2 <= k < hex_text(n).len() ==> '0' <= #[trigger] hex_text(n)[k] <= '9' || 'A'
                <= hex_text(n)[k] <= 'F',
        digits_value(hex_text(n).skip(2)) == n,
        n > 0 ==> hex_text(n)[2] != '0',
{
    reveal_strlit("0x");
    law_hex_reads_back(n);
    lemma_hex_digits_range(n);
    assert(hex_text(n).skip(2) =~= hex_digits(n));
    assert forall|k: int| 2 <= k < hex_text(n).len() implies '0' <= #[trigger] hex_text(n)[k]
        <= '9' || 'A' <= hex_text(n)[k] <= 'F' by {
        assert(hex_text(n)[k] == hex_digits(n)[k - 2]);
    }
    assert(hex_text(n)[2] == hex_digits(n)[0]);
}

/// Hexadecimal digits are decimal digits and the first upper case letters.
proof fn lemma_hex_digits_range(n: int)
    requires
        n >= 0,
    ensures
        forall|k: int|
            0 <= k < hex_digits(n).len() ==> '0' <= #[trigger] hex_digits(n)[k] <= '9' || 'A'
                <= hex_digits(n)[k] <= 'F',
    decreases n,
{
    if n >= 16 {
        lemma_hex_digits_range(n / 16);
        assert forall|k: int| 0 <= k < hex_digits(n).len() implies '0' <= #[trigger] hex_digits(
            n,
        )[k] <= '9' || 'A' <= hex_digits(n)[k] <= 'F' by {
            if k < hex_digits(n / 16).len() {
                assert(hex_digits(n)[k] == hex_digits(n / 16)[k]);
            }
        }
    }
}

/// A list of strings stands for the characters of each of them, in order.
pub proof fn law_views(list: Seq<String>, i: int)
    ensures
        views(list).len() == list.len(),
        0 <= i < list.len() ==> views(list)[i] == list[i]@,
{
}

} // verus!
