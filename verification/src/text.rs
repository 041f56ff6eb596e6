//! Numbers, bytes and lists as text.

use vstd::prelude::*;
use vstd::string::StringExecFns;

verus! {

/// What Rust's debug format makes of a string: quotes around it, and escapes inside.
pub uninterp spec fn quoted(s: Seq<char>) -> Seq<char>;

/// The debug format of a `str`: a function of its characters. What the escapes are is not stated.
#[verifier::external_body]
pub(crate) fn quote(s: &str) -> (r: String)
    ensures
        r@ == quoted(s@),
{
    format!("{s:?}")
}

/// The character of a digit below 16.
pub open spec fn digit(d: int) -> char {
    if d < 10 {
        (48 + d) as char
    } else {
        (87 + d) as char
    }
}

/// A number in decimal digits.
pub open spec fn decimal_of(n: nat) -> Seq<char>
    decreases n,
{
    if n < 10 {
        seq![digit(n as int)]
    } else {
        decimal_of(n / 10).push(digit((n % 10) as int))
    }
}

/// Bytes in lower-case hexadecimal digits.
pub open spec fn hex_of(bytes: Seq<u8>) -> Seq<char> {
    Seq::new(
        2 * bytes.len(),
        |i: int|
            if i % 2 == 0 {
                digit((bytes[i / 2] / 16) as int)
            } else {
                digit((bytes[i / 2] % 16) as int)
            },
    )
}

/// Texts with a separator between them.
pub open spec fn joined(parts: Seq<Seq<char>>, sep: Seq<char>) -> Seq<char>
    decreases parts.len(),
{
    if parts.len() == 0 {
        Seq::empty()
    } else if parts.len() == 1 {
        parts[0]
    } else {
        joined(parts.drop_last(), sep) + sep + parts.last()
    }
}

/// The views of strings.
pub open spec fn views(v: Seq<String>) -> Seq<Seq<char>> {
    v.map_values(|s: String| s@)
}

/// Appends the character of a digit below 16.
fn append_digit(s: &mut String, d: u8)
    requires
        d < 16,
    ensures
        final(s)@ == old(s)@.push(digit(d as int)),
{
    let all = "0123456789abcdef";
    proof {
        reveal_strlit("0123456789abcdef");
    }
    let one = vstd::string::StrSliceExecFns::substring_char(all, d as usize, d as usize + 1);
    s.append(one);
    assert(one@ =~= seq![digit(d as int)]) by {
        assert(all@[d as int] == digit(d as int));
    }
    assert(s@ =~= old(s)@.push(digit(d as int)));
}

/// A number in decimal digits.
pub fn decimal(n: u64) -> (r: String)
    ensures
        r@ == decimal_of(n as nat),
    decreases n,
{
    if n < 10 {
        let mut s = String::new();
        append_digit(&mut s, n as u8);
        assert(s@ =~= decimal_of(n as nat));
        s
    } else {
        let mut s = decimal(n / 10);
        append_digit(&mut s, (n % 10) as u8);
        s
    }
}

/// Bytes in lower-case hexadecimal digits.
pub fn hex(bytes: &[u8]) -> (r: String)
    ensures
        r@ == hex_of(bytes@),
{
    let mut s = String::new();
    let mut i: usize = 0;
    while i < bytes.len()
        invariant
            i <= bytes@.len(),
            s@ == hex_of(bytes@.take(i as int)),
        decreases bytes@.len() - i,
    {
        let b: u8 = bytes[i];
        append_digit(&mut s, b / 16);
        append_digit(&mut s, b % 16);
        i += 1;
        assert(s@ =~= hex_of(bytes@.take(i as int)));
    }
    assert(bytes@.take(bytes@.len() as int) =~= bytes@);
    s
}

/// Texts with a separator between them.
pub fn join(parts: &Vec<String>, sep: &str) -> (r: String)
    ensures
        r@ == joined(views(parts@), sep@),
{
    let mut s = String::new();
    let mut i: usize = 0;
    while i < parts.len()
        invariant
            i <= parts@.len(),
            s@ == joined(views(parts@.take(i as int)), sep@),
        decreases parts@.len() - i,
    {
        let ghost before = views(parts@.take(i as int));
        if i > 0 {
            s.append(sep);
        }
        s.append(parts[i].as_str());
        i += 1;
        proof {
            let now = views(parts@.take(i as int));
            assert(now.drop_last() =~= before);
            if i == 1 {
                assert(s@ =~= now[0]);
            }
        }
    }
    assert(parts@.take(parts@.len() as int) =~= parts@);
    s
}

/// Whether two texts are equal.
pub fn same(a: &str, b: &str) -> (r: bool)
    ensures
        r == (a@ == b@),
{
    let (x, y) = (a.to_owned(), b.to_owned());
    x == y
}

/// Whether a text is not empty and holds no `sep`.
pub open spec fn free_of(s: Seq<char>, sep: char) -> bool {
    s.len() > 0 && forall|i: int| 0 <= i < s.len() ==> #[trigger] s[i] != sep
}

/// Decimal texts hold digits only, so no underscore.
pub proof fn lemma_decimal_is_digits(n: nat)
    ensures
        free_of(decimal_of(n), '_'),
    decreases n,
{
    if n >= 10 {
        lemma_decimal_is_digits(n / 10);
    }
}

/// Different numbers have different decimal texts.
pub proof fn lemma_decimals_differ(a: nat, b: nat)
    ensures
        decimal_of(a) == decimal_of(b) ==> a == b,
    decreases a,
{
    if decimal_of(a) == decimal_of(b) {
        lemma_decimal_is_digits(a / 10);
        lemma_decimal_is_digits(b / 10);
        if a < 10 && b < 10 {
            assert(decimal_of(a)[0] == decimal_of(b)[0]);
        } else if a >= 10 && b >= 10 {
            let (x, y) = (decimal_of(a), decimal_of(b));
            assert(x.drop_last() =~= decimal_of(a / 10));
            assert(y.drop_last() =~= decimal_of(b / 10));
            assert(x.last() == y.last());
            lemma_decimals_differ(a / 10, b / 10);
        } else {
            assert(decimal_of(a).len() == decimal_of(b).len());
        }
    }
}

/// Texts joined by underscores are not empty, and hold an underscore where there are several.
proof fn lemma_joined_holds(parts: Seq<Seq<char>>)
    requires
        forall|i: int| 0 <= i < parts.len() ==> free_of(#[trigger] parts[i], '_'),
    ensures
        parts.len() > 0 ==> joined(parts, seq!['_']).len() > 0,
        parts.len() > 1 ==> joined(parts, seq!['_']).contains('_'),
{
    if parts.len() > 1 {
        let (front, last) = (joined(parts.drop_last(), seq!['_']), parts.last());
        assert(joined(parts, seq!['_'])[front.len() as int] == '_');
    }
}

/// A list of texts without underscores can be told from the texts joined by underscores.
pub proof fn lemma_joined_differ(a: Seq<Seq<char>>, b: Seq<Seq<char>>)
    requires
        forall|i: int| 0 <= i < a.len() ==> free_of(#[trigger] a[i], '_'),
        forall|i: int| 0 <= i < b.len() ==> free_of(#[trigger] b[i], '_'),
        joined(a, seq!['_']) == joined(b, seq!['_']),
    ensures
        a == b,
    decreases a.len(),
{
    let (x, y) = (joined(a, seq!['_']), joined(b, seq!['_']));
    lemma_joined_holds(a);
    lemma_joined_holds(b);
    if a.len() == 0 || b.len() == 0 {
        assert(a =~= b);
    } else if a.len() == 1 || b.len() == 1 {
        if a.len() > 1 {
            let i = x.index_of('_');
            assert(b[0][i] == '_');
        }
        if b.len() > 1 {
            let i = y.index_of('_');
            assert(a[0][i] == '_');
        }
        assert(a =~= b);
    } else {
        let (p, q) = (joined(a.drop_last(), seq!['_']), joined(b.drop_last(), seq!['_']));
        assert(x[p.len() as int] == '_');
        assert(y[q.len() as int] == '_');
        if p.len() < q.len() {
            assert(x[q.len() as int] == a.last()[q.len() - p.len() - 1]);
        }
        if q.len() < p.len() {
            assert(y[p.len() as int] == b.last()[p.len() - q.len() - 1]);
        }
        assert(p =~= x.take(p.len() as int));
        assert(q =~= y.take(q.len() as int));
        assert(a.last() =~= x.skip(p.len() as int + 1));
        assert(b.last() =~= y.skip(q.len() as int + 1));
        lemma_joined_differ(a.drop_last(), b.drop_last());
        assert(a =~= a.drop_last().push(a.last()));
        assert(b =~= b.drop_last().push(b.last()));
    }
}

/// The value of a digit.
pub open spec fn digit_value(c: char) -> int {
    if '0' <= c <= '9' {
        c as int - '0' as int
    } else {
        c as int - 'a' as int + 10
    }
}

/// The number that decimal digits stand for.
pub open spec fn decimal_value(s: Seq<char>) -> int
    decreases s.len(),
{
    if s.len() == 0 {
        0
    } else {
        10 * decimal_value(s.drop_last()) + digit_value(s.last())
    }
}

/// Decimal texts read back as their numbers, have only decimal digits, and start with 0 only for 0.
pub proof fn lemma_decimals_read_back(n: nat)
    ensures
        decimal_value(decimal_of(n)) == n,
        decimal_of(n).len() > 0,
        forall|i: int| 0 <= i < decimal_of(n).len() ==> '0' <= #[trigger] decimal_of(n)[i] <= '9',
        n > 0 ==> decimal_of(n)[0] != '0',
    decreases n,
{
    let s = decimal_of(n);
    if n < 10 {
        assert(s.drop_last() =~= Seq::<char>::empty());
        assert(decimal_value(s.drop_last()) == 0);
    } else {
        lemma_decimals_read_back(n / 10);
        assert(s.drop_last() =~= decimal_of(n / 10));
        assert(s[0] == decimal_of(n / 10)[0]);
    }
}

/// Hexadecimal texts have two digits for each byte, the upper half first, and read back as the bytes.
pub proof fn lemma_hex_reads_back(bytes: Seq<u8>, i: int)
    requires
        0 <= i < bytes.len(),
    ensures
        hex_of(bytes).len() == 2 * bytes.len(),
        16 * digit_value(hex_of(bytes)[2 * i]) + digit_value(hex_of(bytes)[2 * i + 1]) == bytes[i],
        '0' <= hex_of(bytes)[2 * i] <= '9' || 'a' <= hex_of(bytes)[2 * i] <= 'f',
        '0' <= hex_of(bytes)[2 * i + 1] <= '9' || 'a' <= hex_of(bytes)[2 * i + 1] <= 'f',
{
}

/// Lists join up: two lists in one are the first, a separator and the second.
pub proof fn lemma_lists_join_up(a: Seq<Seq<char>>, b: Seq<Seq<char>>, sep: Seq<char>)
    requires
        a.len() > 0,
        b.len() > 0,
    ensures
        joined(a + b, sep) == joined(a, sep) + sep + joined(b, sep),
        joined(seq![b[0]], sep) == b[0],
    decreases b.len(),
{
    let all = a + b;
    assert(all.last() == b.last());
    assert(all.drop_last() =~= a + b.drop_last());
    if b.len() == 1 {
        assert(all.drop_last() =~= a);
    } else {
        lemma_lists_join_up(a, b.drop_last(), sep);
        assert(joined(all, sep) =~= joined(a, sep) + sep + joined(b, sep));
    }
}

} // verus!
