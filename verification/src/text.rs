//! Text: splitting, searching, and decimal numbers.
use vstd::prelude::*;

verus! {

/// The views of a list of strings.
pub open spec fn texts(v: Seq<String>) -> Seq<Seq<char>> {
    v.map_values(|t: String| t@)
}

/// The fields of `s` between the characters of `seps`. There is one field more than there are
/// separators, so the empty text has one empty field.
pub open spec fn fields(s: Seq<char>, seps: Set<char>) -> Seq<Seq<char>>
    decreases s.len(),
{
    if s.len() == 0 {
        seq![Seq::<char>::empty()]
    } else {
        let before = fields(s.drop_last(), seps);
        if seps.contains(s.last()) {
            before.push(Seq::<char>::empty())
        } else {
            before.drop_last().push(before.last().push(s.last()))
        }
    }
}

/// `hay` holds `needle` as a contiguous run.
pub open spec fn holds(hay: Seq<char>, needle: Seq<char>) -> bool {
    exists|i: int| holds_at(hay, needle, i)
}

/// `needle` stands in `hay` at index `i`.
pub open spec fn holds_at(hay: Seq<char>, needle: Seq<char>, i: int) -> bool {
    0 <= i && i + needle.len() <= hay.len() && hay.subrange(i, i + needle.len()) == needle
}

/// The characters of `s` in a vector.
pub fn chars_of(s: &str) -> (v: Vec<char>)
    ensures
        v@ == s@,
{
    let mut v: Vec<char> = Vec::new();
    for c in it: s.chars()
        invariant
            it.seq() == s@,
            v@ == it.seq().take(it.index()),
    {
        v.push(c);
    }
    v
}

/// Whether two texts are the same.
pub fn same(a: &str, b: &str) -> (r: bool)
    ensures
        r == (a@ == b@),
{
    a.to_owned() == b.to_owned()
}

/// The fields of `s` between the characters `a` and `b`, as [`fields`] says.
pub fn split_either(s: &str, a: char, b: char) -> (r: Vec<String>)
    ensures
        texts(r@) == fields(s@, set![a, b]),
{
    let chars = chars_of(s);
    let mut r: Vec<String> = Vec::new();
    let mut start: usize = 0;
    let mut i: usize = 0;
    assert(chars@.take(0) =~= Seq::<char>::empty());
    assert(chars@.subrange(0, 0) =~= Seq::<char>::empty());
    while i < chars.len()
        invariant
            chars@ == s@,
            start <= i <= chars.len(),
            fields(chars@.take(i as int), set![a, b]) == texts(r@).push(
                chars@.subrange(start as int, i as int),
            ),
        decreases chars.len() - i,
    {
        let c = chars[i];
        let ghost before = chars@.take(i as int);
        let ghost after = chars@.take(i + 1);
        assert(after.drop_last() =~= before);
        assert(after.last() == c);
        if c == a || c == b {
            r.push(s.substring_char(start, i).to_owned());
            start = i + 1;
            assert(chars@.subrange(start as int, i + 1) =~= Seq::<char>::empty());
            assert(fields(after, set![a, b]) =~= texts(r@).push(
                chars@.subrange(start as int, i + 1),
            ));
        } else {
            assert(chars@.subrange(start as int, i + 1) =~= chars@.subrange(
                start as int,
                i as int,
            ).push(c));
            assert(fields(after, set![a, b]) =~= texts(r@).push(
                chars@.subrange(start as int, i + 1),
            ));
        }
        i = i + 1;
    }
    assert(chars@.take(i as int) =~= s@);
    r.push(s.substring_char(start, i).to_owned());
    assert(texts(r@) =~= fields(s@, set![a, b]));
    r
}

/// The fields of `s` between the characters `sep`, as [`fields`] says.
pub fn split(s: &str, sep: char) -> (r: Vec<String>)
    ensures
        texts(r@) == fields(s@, set![sep]),
{
    assert(set![sep, sep] =~= set![sep]);
    split_either(s, sep, sep)
}

/// Whether `hay` holds `needle`.
pub fn contains(hay: &str, needle: &str) -> (r: bool)
    ensures
        r == holds(hay@, needle@),
{
    let h = chars_of(hay);
    let n = chars_of(needle);
    if n.len() > h.len() {
        return false;
    }
    let last: usize = h.len() - n.len();
    let mut i: usize = 0;
    while i < last
        invariant
            h@ == hay@,
            n@ == needle@,
            last == h.len() - n.len(),
            i <= last,
            forall|j: int| 0 <= j < i ==> !holds_at(hay@, needle@, j),
        decreases last - i,
    {
        if stands_at(&h, &n, i) {
            return true;
        }
        i = i + 1;
    }
    stands_at(&h, &n, i)
}

fn stands_at(hay: &Vec<char>, needle: &Vec<char>, i: usize) -> (r: bool)
    requires
        i + needle.len() <= hay.len(),
    ensures
        r == holds_at(hay@, needle@, i as int),
{
    let mut k: usize = 0;
    while k < needle.len()
        invariant
            i + needle.len() <= hay.len(),
            k <= needle.len(),
            forall|j: int| 0 <= j < k ==> hay[i + j] == needle[j],
        decreases needle.len() - k,
    {
        if hay[i + k] != needle[k] {
            assert(hay@.subrange(i as int, i + needle.len())[k as int] != needle@[k as int]);
            return false;
        }
        k = k + 1;
    }
    assert(hay@.subrange(i as int, i + needle.len()) =~= needle@);
    true
}

/// The text before the first `sep` of `s`, or all of `s` if it has none.
pub fn first_field(s: &str, sep: char) -> (r: String)
    ensures
        r@ == fields(s@, set![sep]).first(),
{
    let v = split(s, sep);
    proof {
        lemma_fields_len(s@, set![sep]);
        assert(texts(v@)[0] == v@[0]@);
    }
    v[0].clone()
}

/// The text after the last `sep` of `s`, or all of `s` if it has none.
pub fn last_field(s: &str, sep: char) -> (r: String)
    ensures
        r@ == fields(s@, set![sep]).last(),
{
    let v = split(s, sep);
    proof {
        lemma_fields_len(s@, set![sep]);
        assert(texts(v@)[v.len() - 1] == v@[v.len() - 1]@);
    }
    v[v.len() - 1].clone()
}

/// A text has at least one field.
pub proof fn lemma_fields_len(s: Seq<char>, seps: Set<char>)
    ensures
        fields(s, seps).len() >= 1,
    decreases s.len(),
{
    if s.len() > 0 {
        lemma_fields_len(s.drop_last(), seps);
    }
}

/// The first `n` characters of `s`, or all of `s` if it has fewer.
pub fn first_chars(s: &str, n: usize) -> (r: String)
    ensures
        r@ == s@.take(if s@.len() < n { s@.len() as int } else { n as int }),
{
    let len = s.unicode_len();
    if len < n {
        s.substring_char(0, len).to_owned()
    } else {
        s.substring_char(0, n).to_owned()
    }
}

/// The decimal digit of value `d`.
pub open spec fn digit(d: int) -> char {
    ('0' as int + d) as char
}

/// `c` is a decimal digit.
pub open spec fn is_digit(c: char) -> bool {
    '0' <= c <= '9'
}

/// `n` in decimal, without leading zeros.
pub open spec fn decimal(n: nat) -> Seq<char>
    decreases n,
{
    if n < 10 {
        seq![digit(n as int)]
    } else {
        decimal(n / 10).push(digit((n % 10) as int))
    }
}

/// Why a text is not a number.
#[derive(Debug, Clone, Copy, PartialEq, Eq, Structural)]
pub enum NumberError {
    /// The text is empty.
    Empty,
    /// A character is not a digit, or a sign stands alone.
    InvalidDigit,
    /// The number does not fit in 32 bits.
    TooLarge,
}

/// The number that the digits `s` denote. The first character that cannot be taken decides the
/// error.
pub open spec fn digits_value(s: Seq<char>) -> Result<nat, NumberError>
    decreases s.len(),
{
    if s.len() == 0 {
        Ok(0nat)
    } else {
        match digits_value(s.drop_last()) {
            Err(e) => Err(e),
            Ok(n) => if !is_digit(s.last()) {
                Err(NumberError::InvalidDigit)
            } else if 10 * n + (s.last() as int - '0' as int) > u32::MAX {
                Err(NumberError::TooLarge)
            } else {
                Ok((10 * n + (s.last() as int - '0' as int)) as nat)
            },
        }
    }
}

/// The 32-bit number that `s` denotes: an optional plus sign, then digits only.
pub open spec fn number(s: Seq<char>) -> Result<nat, NumberError> {
    if s.len() == 0 {
        Err(NumberError::Empty)
    } else if s[0] == '+' {
        if s.len() == 1 {
            Err(NumberError::InvalidDigit)
        } else {
            digits_value(s.skip(1))
        }
    } else {
        digits_value(s)
    }
}

fn digit_text(d: usize) -> (r: &'static str)
    requires
        d < 10,
    ensures
        r@ == seq![digit(d as int)],
{
    proof {
        reveal_strlit("0");
        reveal_strlit("1");
        reveal_strlit("2");
        reveal_strlit("3");
        reveal_strlit("4");
        reveal_strlit("5");
        reveal_strlit("6");
        reveal_strlit("7");
        reveal_strlit("8");
        reveal_strlit("9");
    }
    let r = if d == 0 {
        "0"
    } else if d == 1 {
        "1"
    } else if d == 2 {
        "2"
    } else if d == 3 {
        "3"
    } else if d == 4 {
        "4"
    } else if d == 5 {
        "5"
    } else if d == 6 {
        "6"
    } else if d == 7 {
        "7"
    } else if d == 8 {
        "8"
    } else {
        "9"
    };
    assert(r@ =~= seq![digit(d as int)]);
    r
}

/// `n` in decimal.
pub fn decimal_text(n: usize) -> (r: String)
    ensures
        r@ == decimal(n as nat),
    decreases n,
{
    if n < 10 {
        digit_text(n).to_owned()
    } else {
        let mut r = decimal_text(n / 10);
        r.append(digit_text(n % 10));
        assert(r@ =~= decimal(n as nat));
        r
    }
}

/// Reads a 32-bit number.
pub fn parse_number(s: &str) -> (r: Result<u32, NumberError>)
    ensures
        match r {
            Ok(n) => number(s@) == Ok::<nat, NumberError>(n as nat),
            Err(e) => number(s@) == Err::<nat, NumberError>(e),
        },
{
    let chars = chars_of(s);
    if chars.len() == 0 {
        return Err(NumberError::Empty);
    }
    let start: usize = if chars[0] == '+' {
        1
    } else {
        0
    };
    if start == chars.len() {
        return Err(NumberError::InvalidDigit);
    }
    let ghost digits = s@.skip(start as int);
    assert(start == 0 ==> digits =~= s@);
    assert(digits.take(0) =~= Seq::<char>::empty());
    let mut n: u32 = 0;
    let mut i: usize = start;
    while i < chars.len()
        invariant
            chars@ == s@,
            start <= i <= chars.len(),
            digits == s@.skip(start as int),
            number(s@) == digits_value(digits),
            digits_value(digits.take(i - start)) == Ok::<nat, NumberError>(n as nat),
        decreases chars.len() - i,
    {
        let c = chars[i];
        let ghost read = digits.take(i - start);
        let ghost next = digits.take(i + 1 - start);
        assert(next.drop_last() =~= read);
        assert(next.last() == c);
        if !('0' <= c && c <= '9') {
            proof {
                lemma_digits_error(digits, i + 1 - start, NumberError::InvalidDigit);
            }
            return Err(NumberError::InvalidDigit);
        }
        let d: u64 = c as u64 - '0' as u64;
        let wide: u64 = n as u64 * 10 + d;
        if wide > u32::MAX as u64 {
            proof {
                lemma_digits_error(digits, i + 1 - start, NumberError::TooLarge);
            }
            return Err(NumberError::TooLarge);
        }
        n = wide as u32;
        i = i + 1;
    }
    assert(digits.take(i - start) =~= digits);
    Ok(n)
}

/// Digits that are not a number stay so, for the same reason, whatever follows.
proof fn lemma_digits_error(s: Seq<char>, k: int, e: NumberError)
    requires
        0 <= k <= s.len(),
        digits_value(s.take(k)) == Err::<nat, NumberError>(e),
    ensures
        digits_value(s) == Err::<nat, NumberError>(e),
    decreases s.len() - k,
{
    if k == s.len() {
        assert(s.take(k) =~= s);
    } else {
        assert(s.take(k + 1).drop_last() =~= s.take(k));
        lemma_digits_error(s, k + 1, e);
    }
}

/// The fields with `sep` between them.
pub open spec fn rejoined(parts: Seq<Seq<char>>, sep: char) -> Seq<char>
    decreases parts.len(),
{
    if parts.len() == 0 {
        Seq::<char>::empty()
    } else if parts.len() == 1 {
        parts[0]
    } else {
        rejoined(parts.drop_last(), sep).push(sep) + parts.last()
    }
}

/// `s` holds none of the characters `seps`.
pub open spec fn free_of(s: Seq<char>, seps: Set<char>) -> bool {
    forall|i: int| 0 <= i < s.len() ==> !seps.contains(#[trigger] s[i])
}

/// No field holds a separator, and the fields with the separator between them are the text again.
pub proof fn law_fields_rejoin(s: Seq<char>, sep: char)
    ensures
        rejoined(fields(s, set![sep]), sep) == s,
        forall|i: int|
            0 <= i < fields(s, set![sep]).len() ==> free_of(
                #[trigger] fields(s, set![sep])[i],
                set![sep],
            ),
    decreases s.len(),
{
    lemma_fields_free(s, set![sep]);
    if s.len() > 0 {
        let front = s.drop_last();
        let before = fields(front, set![sep]);
        let after = fields(s, set![sep]);
        law_fields_rejoin(front, sep);
        lemma_fields_len(front, set![sep]);
        assert(s =~= front.push(s.last()));
        if s.last() == sep {
            assert(after.drop_last() =~= before);
            assert(rejoined(after, sep) =~= s);
        } else {
            assert(after.drop_last() =~= before.drop_last());
            assert(rejoined(after, sep) =~= s);
        }
    }
}

/// No field holds a separator.
pub proof fn lemma_fields_free(s: Seq<char>, seps: Set<char>)
    ensures
        forall|i: int|
            0 <= i < fields(s, seps).len() ==> free_of(#[trigger] fields(s, seps)[i], seps),
    decreases s.len(),
{
    if s.len() > 0 {
        let before = fields(s.drop_last(), seps);
        let after = fields(s, seps);
        lemma_fields_free(s.drop_last(), seps);
        lemma_fields_len(s.drop_last(), seps);
        assert forall|i: int| 0 <= i < after.len() implies free_of(#[trigger] after[i], seps) by {
            if i < before.len() - 1 {
                assert(after[i] == before[i]);
            } else {
                assert(free_of(before.last(), seps));
            }
        }
    }
}

/// A text without separators is its only field.
pub proof fn lemma_fields_of_free(s: Seq<char>, seps: Set<char>)
    requires
        free_of(s, seps),
    ensures
        fields(s, seps) == seq![s],
    decreases s.len(),
{
    if s.len() > 0 {
        lemma_fields_of_free(s.drop_last(), seps);
        assert(!seps.contains(s[s.len() - 1]));
        assert(s.drop_last().push(s.last()) =~= s);
        assert(fields(s, seps) =~= seq![s]);
    } else {
        assert(s =~= Seq::<char>::empty());
    }
}

/// The fields of two texts with a separator between them are those of the first, then those of
/// the second.
pub proof fn lemma_fields_concat(a: Seq<char>, sep: char, b: Seq<char>, seps: Set<char>)
    requires
        seps.contains(sep),
    ensures
        fields(a.push(sep) + b, seps) == fields(a, seps) + fields(b, seps),
    decreases b.len(),
{
    let whole = a.push(sep) + b;
    if b.len() == 0 {
        assert(whole =~= a.push(sep));
        assert(whole.drop_last() =~= a);
        assert(fields(whole, seps) =~= fields(a, seps) + fields(b, seps));
    } else {
        lemma_fields_concat(a, sep, b.drop_last(), seps);
        lemma_fields_len(b.drop_last(), seps);
        assert(whole.drop_last() =~= a.push(sep) + b.drop_last());
        assert(whole.last() == b.last());
        assert(fields(whole, seps) =~= fields(a, seps) + fields(b, seps));
    }
}

/// A number in decimal consists of digits.
pub proof fn lemma_decimal_digits(n: nat)
    ensures
        decimal(n).len() > 0,
        forall|i: int| 0 <= i < decimal(n).len() ==> is_digit(#[trigger] decimal(n)[i]),
    decreases n,
{
    if n >= 10 {
        lemma_decimal_digits(n / 10);
    }
}

/// A 32-bit number in decimal reads back as that number.
pub proof fn law_number_reads_decimal(n: u32)
    ensures
        number(decimal(n as nat)) == Ok::<nat, NumberError>(n as nat),
{
    lemma_decimal_digits(n as nat);
    assert(is_digit(decimal(n as nat)[0]));
    lemma_digits_of_decimal(n as nat);
}

proof fn lemma_digits_of_decimal(n: nat)
    requires
        n <= u32::MAX,
    ensures
        digits_value(decimal(n)) == Ok::<nat, NumberError>(n),
    decreases n,
{
    let s = decimal(n);
    if n < 10 {
        assert(s.drop_last() =~= Seq::<char>::empty());
        assert(digits_value(s.drop_last()) == Ok::<nat, NumberError>(0nat));
    } else {
        lemma_digits_of_decimal(n / 10);
        assert(s.drop_last() =~= decimal(n / 10));
    }
}

/// A text stands in another wherever that is cut around it, and nowhere else.
pub proof fn law_holds_where_cut(hay: Seq<char>, needle: Seq<char>, a: Seq<char>, b: Seq<char>)
    ensures
        holds(a + needle + b, needle),
        holds(hay, needle) ==> exists|x: Seq<char>, y: Seq<char>| hay == #[trigger] (x + needle + y),
{
    let whole = a + needle + b;
    let at = a.len() as int;
    assert(whole.subrange(at, at + needle.len()) =~= needle);
    assert(holds_at(whole, needle, at));
    if holds(hay, needle) {
        let i = choose|i: int| holds_at(hay, needle, i);
        let x = hay.take(i);
        let y = hay.skip(i + needle.len());
        assert(hay =~= x + needle + y) by {
            assert forall|k: int| i <= k < i + needle.len() implies hay[k] == needle[k - i] by {
                assert(hay.subrange(i, i + needle.len())[k - i] == hay[k]);
            }
        }
    }
}

/// A further digit multiplies a number by ten and adds to it, also when it is written.
pub proof fn law_decimal_digit_by_digit(n: nat, d: nat)
    requires
        d < 10,
    ensures
        decimal(d).len() == 1,
        decimal(d)[0] as int == '0' as int + d,
        n > 0 ==> decimal(10 * n + d) == decimal(n) + decimal(d),
{
    if n > 0 {
        assert((10 * n + d) / 10 == n);
        assert((10 * n + d) % 10 == d);
        assert(decimal(10 * n + d) =~= decimal(n) + decimal(d));
    }
}

/// A number that is read goes on by its digits: each multiplies it by ten and adds to it, until it
/// no longer fits. Any other character ends it.
pub proof fn law_number_digit_by_digit(s: Seq<char>, n: nat, c: char)
    requires
        number(s) == Ok::<nat, NumberError>(n),
    ensures
        !('0' <= c <= '9') ==> number(s.push(c)) == Err::<nat, NumberError>(
            NumberError::InvalidDigit,
        ),
        '0' <= c <= '9' && 10 * n + (c as int - '0' as int) <= 0xffff_ffff ==> number(s.push(c)) == Ok::<
            nat,
            NumberError,
        >((10 * n + (c as int - '0' as int)) as nat),
        '0' <= c <= '9' && 10 * n + (c as int - '0' as int) > 0xffff_ffff ==> number(s.push(c))
            == Err::<nat, NumberError>(NumberError::TooLarge),
{
    let t = s.push(c);
    assert(t[0] == s[0]);
    assert(t.drop_last() =~= s);
    if s[0] == '+' {
        assert(t.skip(1) =~= s.skip(1).push(c));
        assert(t.skip(1).drop_last() =~= s.skip(1));
        assert(t.skip(1).last() == c);
    }
}

/// A plus sign before a number changes nothing, and a text that is no number stays none whatever
/// follows.
pub proof fn law_number_sign_and_end(s: Seq<char>, rest: Seq<char>)
    ensures
        s.len() > 0 && s[0] != '+' ==> number(seq!['+'] + s) == number(s),
        s.len() == 0 ==> number(s) == Err::<nat, NumberError>(NumberError::Empty),
        s == seq!['+'] ==> number(s) == Err::<nat, NumberError>(NumberError::InvalidDigit),
        number(s) is Err && s.len() > 0 && s != seq!['+'] ==> number(s + rest) == number(s),
{
    let signed = seq!['+'] + s;
    assert(signed.skip(1) =~= s);
    if s.len() > 0 {
        assert((s + rest)[0] == s[0]);
        if number(s) is Err && s != seq!['+'] {
            if s[0] == '+' {
                if s.len() == 1 {
                    assert(s =~= seq!['+']);
                }
                assert((s + rest).skip(1) =~= s.skip(1) + rest);
                let t = (s + rest).skip(1);
                assert(t.take(s.len() - 1) =~= s.skip(1));
                lemma_digits_error(t, s.len() - 1, number(s)->Err_0);
            } else {
                assert((s + rest).take(s.len() as int) =~= s);
                lemma_digits_error(s + rest, s.len() as int, number(s)->Err_0);
            }
        }
    }
}

/// A text without separators before another goes with the first field of that.
pub proof fn lemma_fields_after(a: Seq<char>, b: Seq<char>, seps: Set<char>)
    requires
        free_of(a, seps),
    ensures
        fields(a + b, seps) == seq![a + fields(b, seps).first()] + fields(b, seps).skip(1),
    decreases b.len(),
{
    lemma_fields_len(b, seps);
    if b.len() == 0 {
        assert(a + b =~= a);
        lemma_fields_of_free(a, seps);
        assert(fields(a + b, seps) =~= seq![a + fields(b, seps).first()] + fields(b, seps).skip(1));
    } else {
        lemma_fields_after(a, b.drop_last(), seps);
        lemma_fields_len(b.drop_last(), seps);
        let short = fields(b.drop_last(), seps);
        let long = fields(a + b.drop_last(), seps);
        assert((a + b).drop_last() =~= a + b.drop_last());
        assert((a + b).last() == b.last());
        if seps.contains(b.last()) {
            assert(fields(a + b, seps) =~= seq![a + fields(b, seps).first()] + fields(
                b,
                seps,
            ).skip(1));
        } else if short.len() == 1 {
            assert(long.last() == a + short.first());
            assert(a + short.first().push(b.last()) =~= (a + short.first()).push(b.last()));
            assert(fields(a + b, seps) =~= seq![a + fields(b, seps).first()] + fields(
                b,
                seps,
            ).skip(1));
        } else {
            assert(long.last() == short.last());
            assert(fields(a + b, seps) =~= seq![a + fields(b, seps).first()] + fields(
                b,
                seps,
            ).skip(1));
        }
    }
}

/// The first field is how the text begins, up to the first separator.
pub proof fn lemma_first_field(s: Seq<char>, sep: char)
    ensures
        fields(s, set![sep]).first().is_prefix_of(s),
        fields(s, set![sep]).first().len() < s.len() ==> s[fields(s, set![sep]).first().len() as int]
            == sep,
    decreases s.len(),
{
    lemma_fields_len(s, set![sep]);
    if s.len() > 0 {
        let front = s.drop_last();
        let before = fields(front, set![sep]);
        lemma_first_field(front, sep);
        lemma_fields_len(front, set![sep]);
        lemma_fields_of_front(front, sep);
        let first = fields(s, set![sep]).first();
        if s.last() != sep && before.len() == 1 {
            assert(first =~= s);
        } else {
            assert(first == before.first());
            assert(first =~= s.take(first.len() as int));
            if first.len() < front.len() {
                assert(s[first.len() as int] == front[first.len() as int]);
            } else {
                assert(first.len() == front.len());
                assert(s[first.len() as int] == s.last());
            }
        }
    }
}

/// A text with one field is that field.
proof fn lemma_fields_of_front(s: Seq<char>, sep: char)
    ensures
        fields(s, set![sep]).len() == 1 ==> fields(s, set![sep]).first() == s,
        fields(s, set![sep]).len() > 1 ==> fields(s, set![sep]).first().len() < s.len(),
    decreases s.len(),
{
    lemma_fields_len(s, set![sep]);
    if s.len() > 0 {
        let front = s.drop_last();
        lemma_fields_of_front(front, sep);
        lemma_fields_len(front, set![sep]);
        if s.last() != sep && fields(front, set![sep]).len() == 1 {
            assert(fields(s, set![sep]).first() =~= s);
        }
    } else {
        assert(fields(s, set![sep]).first() =~= s);
    }
}

} // verus!
