//! Text primitives for the transcoder's argument and filter-graph syntax:
//! decimal rendering of fixed-point numbers and the quoting rules.

use vstd::prelude::*;

verus! {

/// The decimal digit character for `d` in `0..10`.
pub open spec fn digit_char(d: int) -> char {
    if d == 0 {
        '0'
    } else if d == 1 {
        '1'
    } else if d == 2 {
        '2'
    } else if d == 3 {
        '3'
    } else if d == 4 {
        '4'
    } else if d == 5 {
        '5'
    } else if d == 6 {
        '6'
    } else if d == 7 {
        '7'
    } else if d == 8 {
        '8'
    } else {
        '9'
    }
}

/// Decimal representation of a natural number, without leading zeros.
pub open spec fn nat_digits(n: nat) -> Seq<char>
    decreases n,
{
    if n < 10 {
        seq![digit_char(n as int)]
    } else {
        nat_digits(n / 10).push(digit_char((n % 10) as int))
    }
}

/// `n / 1000` with exactly three decimals: milliseconds rendered as seconds.
pub open spec fn fixed3(n: nat) -> Seq<char> {
    nat_digits(n / 1000) + seq![
        '.',
        digit_char(((n % 1000) / 100) as int),
        digit_char(((n % 100) / 10) as int),
        digit_char((n % 10) as int),
    ]
}

/// A signed millisecond count rendered as seconds with three decimals.
pub open spec fn signed_fixed3(x: int) -> Seq<char> {
    if x < 0 {
        seq!['-'] + fixed3((-x) as nat)
    } else {
        fixed3(x as nat)
    }
}

/// `n / 100` with exactly two decimals: a percentage rendered as a factor.
pub open spec fn fixed2(n: nat) -> Seq<char> {
    nat_digits(n / 100) + seq!['.', digit_char(((n % 100) / 10) as int), digit_char((n % 10) as int)]
}

fn digit_str(d: u128) -> (r: &'static str)
    requires
        d < 10,
    ensures
        r@ == seq![digit_char(d as int)],
{
    proof {
        reveal_strlit("0");
        reveal_strlit("1");
        reveal_strlit("2");
        reveal_strlit("3");
        reveal_strlit("4");
        reveal_strlit("5");
        reveal_strlit("6");
        reveal_strlit("7");
        reveal_strlit("8");
        reveal_strlit("9");
    }
    if d == 0 {
        "0"
    } else if d == 1 {
        "1"
    } else if d == 2 {
        "2"
    } else if d == 3 {
        "3"
    } else if d == 4 {
        "4"
    } else if d == 5 {
        "5"
    } else if d == 6 {
        "6"
    } else if d == 7 {
        "7"
    } else if d == 8 {
        "8"
    } else {
        "9"
    }
}

/// Appends the decimal digits of `n`.
pub fn push_nat(s: &mut String, n: u128)
    ensures
        final(s)@ == old(s)@ + nat_digits(n as nat),
    decreases n,
{
    if n >= 10 {
        push_nat(s, n / 10);
        s.append(digit_str(n % 10));
        assert(nat_digits(n as nat) == nat_digits((n / 10) as nat).push(digit_char((n % 10) as int)));
        assert(final(s)@ =~= old(s)@ + nat_digits(n as nat));
    } else {
        s.append(digit_str(n));
    }
}

/// Appends `n` milliseconds as seconds with three decimals.
pub fn push_fixed3(s: &mut String, n: u128)
    ensures
        final(s)@ == old(s)@ + fixed3(n as nat),
{
    let ghost s0 = s@;
    push_nat(s, n / 1000);
    proof {
        reveal_strlit(".");
    }
    s.append(".");
    s.append(digit_str((n % 1000) / 100));
    s.append(digit_str((n % 100) / 10));
    s.append(digit_str(n % 10));
    assert(s@ =~= s0 + fixed3(n as nat));
}

/// Appends a signed millisecond count as seconds with three decimals.
pub fn push_signed_fixed3(s: &mut String, x: i128)
    ensures
        final(s)@ == old(s)@ + signed_fixed3(x as int),
{
    let ghost s0 = s@;
    if x < 0 {
        proof {
            reveal_strlit("-");
        }
        s.append("-");
        let m: u128 = if x == i128::MIN {
            170141183460469231731687303715884105728u128
        } else {
            (-x) as u128
        };
        push_fixed3(s, m);
        assert(s@ =~= s0 + signed_fixed3(x as int));
    } else {
        push_fixed3(s, x as u128);
    }
}

/// Appends `n` hundredths with two decimals.
pub fn push_fixed2(s: &mut String, n: u128)
    ensures
        final(s)@ == old(s)@ + fixed2(n as nat),
{
    let ghost s0 = s@;
    push_nat(s, n / 100);
    proof {
        reveal_strlit(".");
    }
    s.append(".");
    s.append(digit_str((n % 100) / 10));
    s.append(digit_str(n % 10));
    assert(s@ =~= s0 + fixed2(n as nat));
}

/// `n / 1000` in its shortest decimal form: trailing zeros of the fraction
/// dropped, and the point too when no fraction is left (`500` is `0.5`,
/// `2000` is `2`).
pub open spec fn short3(n: nat) -> Seq<char> {
    let whole = nat_digits(n / 1000);
    let d1 = digit_char(((n % 1000) / 100) as int);
    let d2 = digit_char(((n % 100) / 10) as int);
    let d3 = digit_char((n % 10) as int);
    if n % 1000 == 0 {
        whole
    } else if n % 100 == 0 {
        whole + seq!['.', d1]
    } else if n % 10 == 0 {
        whole + seq!['.', d1, d2]
    } else {
        whole + seq!['.', d1, d2, d3]
    }
}

/// A signed count of thousandths in its shortest decimal form.
pub open spec fn signed_short3(x: int) -> Seq<char> {
    if x < 0 {
        seq!['-'] + short3((-x) as nat)
    } else {
        short3(x as nat)
    }
}

/// Appends `n` thousandths in their shortest decimal form.
pub fn push_short3(s: &mut String, n: u128)
    ensures
        final(s)@ == old(s)@ + short3(n as nat),
{
    let ghost s0 = s@;
    push_nat(s, n / 1000);
    proof {
        reveal_strlit(".");
    }
    if n % 1000 != 0 {
        s.append(".");
        s.append(digit_str((n % 1000) / 100));
        if n % 100 != 0 {
            s.append(digit_str((n % 100) / 10));
            if n % 10 != 0 {
                s.append(digit_str(n % 10));
            }
        }
    }
    assert(s@ =~= s0 + short3(n as nat));
}

/// Appends a signed count of thousandths in its shortest decimal form.
pub fn push_signed_short3(s: &mut String, x: i128)
    ensures
        final(s)@ == old(s)@ + signed_short3(x as int),
{
    let ghost s0 = s@;
    if x < 0 {
        proof {
            reveal_strlit("-");
        }
        s.append("-");
        let m: u128 = if x == i128::MIN {
            170141183460469231731687303715884105728u128
        } else {
            (-x) as u128
        };
        push_short3(s, m);
        assert(s@ =~= s0 + signed_short3(x as int));
    } else {
        push_short3(s, x as u128);
    }
}

/// Escaped form of one character inside a single-quoted token: a quote
/// closes the quotation, is given escaped, and the quotation reopens.
pub open spec fn quote_escape_char(c: char) -> Seq<char> {
    if c == '\'' {
        seq!['\'', '\\', '\'', '\'']
    } else {
        seq![c]
    }
}

/// Escapes every single quote of `p` as `'\''`.
pub open spec fn quote_escape(p: Seq<char>) -> Seq<char>
    decreases p.len(),
{
    if p.len() == 0 {
        Seq::empty()
    } else {
        quote_escape_char(p[0]) + quote_escape(p.drop_first())
    }
}

/// `p` as a single-quoted token.
pub open spec fn single_quoted(p: Seq<char>) -> Seq<char> {
    seq!['\''] + quote_escape(p) + seq!['\'']
}

/// Escaped form of one character for the drawtext text expansion.
pub open spec fn backslash_escape_char(c: char) -> Seq<char> {
    if c == '\\' {
        seq!['\\', '\\']
    } else {
        seq![c]
    }
}

/// Doubles every backslash of `t`.
pub open spec fn backslash_escape(t: Seq<char>) -> Seq<char>
    decreases t.len(),
{
    if t.len() == 0 {
        Seq::empty()
    } else {
        backslash_escape_char(t[0]) + backslash_escape(t.drop_first())
    }
}

/// The text of a drawtext overlay as it stands between the quotes: backslashes
/// doubled first, then single quotes escaped.
pub open spec fn drawtext_escape(t: Seq<char>) -> Seq<char> {
    quote_escape(backslash_escape(t))
}

/// How the transcoder's tokenizer reads a token: inside single quotes every
/// character is literal up to the closing quote; outside them a backslash
/// takes the next character literally.
pub open spec fn unquote(s: Seq<char>, quoted: bool) -> Seq<char>
    decreases s.len(),
{
    if s.len() == 0 {
        Seq::empty()
    } else if quoted {
        if s[0] == '\'' {
            unquote(s.drop_first(), false)
        } else {
            seq![s[0]] + unquote(s.drop_first(), true)
        }
    } else if s[0] == '\'' {
        unquote(s.drop_first(), true)
    } else if s[0] == '\\' && s.len() >= 2 {
        seq![s[1]] + unquote(s.subrange(2, s.len() as int), false)
    } else {
        seq![s[0]] + unquote(s.drop_first(), false)
    }
}

/// How drawtext expands its text: a backslash takes the next character
/// literally.
pub open spec fn unbackslash(s: Seq<char>) -> Seq<char>
    decreases s.len(),
{
    if s.len() == 0 {
        Seq::empty()
    } else if s[0] == '\\' && s.len() >= 2 {
        seq![s[1]] + unbackslash(s.subrange(2, s.len() as int))
    } else {
        seq![s[0]] + unbackslash(s.drop_first())
    }
}

proof fn lemma_quote_escape_append(a: Seq<char>, b: Seq<char>)
    ensures
        quote_escape(a + b) == quote_escape(a) + quote_escape(b),
    decreases a.len(),
{
    if a.len() == 0 {
        assert(a + b =~= b);
        assert(quote_escape(a) + quote_escape(b) =~= quote_escape(b));
    } else {
        assert((a + b).drop_first() =~= a.drop_first() + b);
        assert((a + b)[0] == a[0]);
        lemma_quote_escape_append(a.drop_first(), b);
        assert(quote_escape(a + b) =~= quote_escape(a) + quote_escape(b));
    }
}

proof fn lemma_backslash_escape_append(a: Seq<char>, b: Seq<char>)
    ensures
        backslash_escape(a + b) == backslash_escape(a) + backslash_escape(b),
    decreases a.len(),
{
    if a.len() == 0 {
        assert(a + b =~= b);
        assert(backslash_escape(a) + backslash_escape(b) =~= backslash_escape(b));
    } else {
        assert((a + b).drop_first() =~= a.drop_first() + b);
        assert((a + b)[0] == a[0]);
        lemma_backslash_escape_append(a.drop_first(), b);
        assert(backslash_escape(a + b) =~= backslash_escape(a) + backslash_escape(b));
    }
}

proof fn lemma_unquote_escaped(p: Seq<char>, rest: Seq<char>)
    ensures
        unquote(quote_escape(p) + rest, true) == p + unquote(rest, true),
    decreases p.len(),
{
    if p.len() == 0 {
        assert(quote_escape(p) + rest =~= rest);
        assert(p + unquote(rest, true) =~= unquote(rest, true));
    } else {
        let c = p[0];
        let tail = quote_escape(p.drop_first()) + rest;
        lemma_unquote_escaped(p.drop_first(), rest);
        let s = quote_escape(p) + rest;
        if c == '\'' {
            assert(s =~= seq!['\'', '\\', '\'', '\''] + tail);
            let s1 = s.drop_first();
            assert(s1 =~= seq!['\\', '\'', '\''] + tail);
            let s2 = s1.subrange(2, s1.len() as int);
            assert(s2 =~= seq!['\''] + tail);
            assert(s2.drop_first() =~= tail);
            assert(unquote(s2, false) == unquote(tail, true));
            assert(unquote(s1, false) == seq!['\''] + unquote(s2, false));
            assert(unquote(s, true) == unquote(s1, false));
        } else {
            assert(s =~= seq![c] + tail);
            assert(s.drop_first() =~= tail);
            assert(unquote(s, true) == seq![c] + unquote(tail, true));
        }
        assert(p =~= seq![c] + p.drop_first());
        assert(unquote(s, true) =~= p + unquote(rest, true));
    }
}

/// A path written as a single-quoted token with its quotes escaped reads
/// back, under the tokenizer's quoting rules, as the path itself.
pub proof fn lemma_single_quoted_round_trip(p: Seq<char>)
    ensures
        unquote(single_quoted(p), false) == p,
{
    let s = single_quoted(p);
    let closing: Seq<char> = seq!['\''];
    assert(s.drop_first() =~= quote_escape(p) + closing);
    lemma_unquote_escaped(p, closing);
    assert(closing.drop_first() =~= Seq::<char>::empty());
    assert(unquote(closing, true) == unquote(Seq::<char>::empty(), false));
    assert(p + unquote(closing, true) =~= p);
}

proof fn lemma_unbackslash_escaped(t: Seq<char>)
    ensures
        unbackslash(backslash_escape(t)) == t,
    decreases t.len(),
{
    if t.len() > 0 {
        let c = t[0];
        let tail = backslash_escape(t.drop_first());
        let s = backslash_escape(t);
        lemma_unbackslash_escaped(t.drop_first());
        if c == '\\' {
            assert(s =~= seq!['\\', '\\'] + tail);
            assert(s.subrange(2, s.len() as int) =~= tail);
        } else {
            assert(s =~= seq![c] + tail);
            assert(s.drop_first() =~= tail);
        }
        assert(t =~= seq![c] + t.drop_first());
    }
}

/// Drawtext text with any backslashes and single quotes, escaped and
/// quoted, reads back as the text itself: the tokenizer removes the quoting,
/// then the text expansion removes the doubled backslashes.
pub proof fn lemma_drawtext_round_trip(t: Seq<char>)
    ensures
        unbackslash(unquote(seq!['\''] + drawtext_escape(t) + seq!['\''], false)) == t,
{
    assert(seq!['\''] + drawtext_escape(t) + seq!['\''] == single_quoted(backslash_escape(t)));
    lemma_single_quoted_round_trip(backslash_escape(t));
    lemma_unbackslash_escaped(t);
}

/// Escapes the single quotes of `p` as `'\''`.
pub fn escape_single_quotes(p: &str) -> (r: String)
    ensures
        r@ == quote_escape(p@),
{
    let n = p.unicode_len();
    let mut r = String::new();
    let mut i: usize = 0;
    while i < n
        invariant
            n == p@.len(),
            i <= n,
            r@ == quote_escape(p@.subrange(0, i as int)),
        decreases n - i,
    {
        let c = p.get_char(i);
        let piece = p.substring_char(i, i + 1);
        proof {
            let a = p@.subrange(0, i as int);
            let one = p@.subrange(i as int, i + 1);
            assert(p@.subrange(0, i + 1) =~= a + one);
            lemma_quote_escape_append(a, one);
            assert(one.drop_first() =~= Seq::<char>::empty());
            assert(one[0] == c);
            assert(quote_escape(one.drop_first()) == Seq::<char>::empty());
            assert(quote_escape(one) =~= quote_escape_char(c));
        }
        proof {
            reveal_strlit("'\\''");
        }
        if c == '\'' {
            r.append("'\\''");
        } else {
            r.append(piece);
        }
        i = i + 1;
    }
    assert(p@.subrange(0, n as int) =~= p@);
    r
}

/// Escapes drawtext text: backslashes doubled, then single quotes escaped.
pub fn escape_drawtext(t: &str) -> (r: String)
    ensures
        r@ == drawtext_escape(t@),
{
    let n = t.unicode_len();
    let mut doubled = String::new();
    let mut i: usize = 0;
    while i < n
        invariant
            n == t@.len(),
            i <= n,
            doubled@ == backslash_escape(t@.subrange(0, i as int)),
        decreases n - i,
    {
        let c = t.get_char(i);
        let piece = t.substring_char(i, i + 1);
        proof {
            let a = t@.subrange(0, i as int);
            let one = t@.subrange(i as int, i + 1);
            assert(t@.subrange(0, i + 1) =~= a + one);
            lemma_backslash_escape_append(a, one);
            assert(one.drop_first() =~= Seq::<char>::empty());
            assert(one[0] == c);
            assert(backslash_escape(one.drop_first()) == Seq::<char>::empty());
            assert(backslash_escape(one) =~= backslash_escape_char(c));
        }
        proof {
            reveal_strlit("\\\\");
        }
        if c == '\\' {
            doubled.append("\\\\");
        } else {
            doubled.append(piece);
        }
        i = i + 1;
    }
    assert(t@.subrange(0, n as int) =~= t@);
    escape_single_quotes(doubled.as_str())
}

/// The views of a sequence of strings.
pub open spec fn views(v: Seq<String>) -> Seq<Seq<char>> {
    v.map_values(|s: String| s@)
}

/// `parts` joined with `sep` between neighbours.
pub open spec fn join(parts: Seq<Seq<char>>, sep: Seq<char>) -> Seq<char>
    decreases parts.len(),
{
    if parts.len() == 0 {
        Seq::empty()
    } else if parts.len() == 1 {
        parts[0]
    } else {
        join(parts.drop_last(), sep) + sep + parts.last()
    }
}

/// Joins `parts` with `sep` between neighbours.
pub fn join_strings(parts: &Vec<String>, sep: &str) -> (r: String)
    ensures
        r@ == join(views(parts@), sep@),
{
    let mut r = String::new();
    let n = parts.len();
    let mut i: usize = 0;
    while i < n
        invariant
            n == parts@.len(),
            i <= n,
            r@ == join(views(parts@.subrange(0, i as int)), sep@),
        decreases n - i,
    {
        if i > 0 {
            r.append(sep);
        }
        r.append(parts[i].as_str());
        proof {
            let done = views(parts@.subrange(0, i + 1));
            assert(done.drop_last() =~= views(parts@.subrange(0, i as int)));
            assert(done.last() == parts@[i as int]@);
            if i == 0 {
                assert(r@ =~= join(done, sep@));
            } else {
                assert(r@ =~= join(done, sep@));
            }
        }
        i = i + 1;
    }
    assert(parts@.subrange(0, n as int) =~= parts@);
    r
}

/// `p` written as `[p]`, the form of a filter-graph link label.
pub open spec fn bracket(p: Seq<char>) -> Seq<char> {
    seq!['['] + p + seq![']']
}

/// The link label `[<prefix><k>]`.
pub open spec fn label(prefix: Seq<char>, k: nat) -> Seq<char> {
    bracket(prefix + nat_digits(k))
}

/// Appends the link label `[<prefix><k>]`.
pub fn push_label(s: &mut String, prefix: &str, k: u128)
    ensures
        final(s)@ == old(s)@ + label(prefix@, k as nat),
{
    let ghost s0 = s@;
    proof {
        reveal_strlit("[");
        reveal_strlit("]");
    }
    s.append("[");
    s.append(prefix);
    push_nat(s, k);
    s.append("]");
    assert(s@ =~= s0 + label(prefix@, k as nat));
}

/// The stream selector `[<input>:<kind>]`, such as `[2:v]` or `[0:a?]`.
pub open spec fn stream(input: nat, kind: Seq<char>) -> Seq<char> {
    bracket(nat_digits(input) + seq![':'] + kind)
}

/// Appends the stream selector `[<input>:<kind>]`.
pub fn push_stream(s: &mut String, input: u128, kind: &str)
    ensures
        final(s)@ == old(s)@ + stream(input as nat, kind@),
{
    let ghost s0 = s@;
    proof {
        reveal_strlit("[");
        reveal_strlit("]");
        reveal_strlit(":");
    }
    s.append("[");
    push_nat(s, input);
    s.append(":");
    s.append(kind);
    s.append("]");
    assert(s@ =~= s0 + stream(input as nat, kind@));
}

/// Whether two strings hold the same characters.
pub fn str_equal(a: &str, b: &str) -> (r: bool)
    ensures
        r == (a@ == b@),
{
    let n = a.unicode_len();
    let m = b.unicode_len();
    if n != m {
        return false;
    }
    let mut i: usize = 0;
    while i < n
        invariant
            n == a@.len(),
            m == b@.len(),
            n == m,
            i <= n,
            forall|k: int| 0 <= k < i ==> a@[k] == b@[k],
        decreases n - i,
    {
        if a.get_char(i) != b.get_char(i) {
            return false;
        }
        i = i + 1;
    }
    assert(a@ =~= b@);
    true
}

} // verus!
