//! Text primitives: comparison, splitting, trimming and decimal numerals.
use vstd::prelude::*;

verus! {

/// Whether `c` has the Unicode property White_Space.
pub open spec fn is_white(c: char) -> bool {
    let v = c as u32;
    ||| 0x09 <= v <= 0x0d
    ||| v == 0x20
    ||| v == 0x85
    ||| v == 0xa0
    ||| v == 0x1680
    ||| 0x2000 <= v <= 0x200a
    ||| v == 0x2028
    ||| v == 0x2029
    ||| v == 0x202f
    ||| v == 0x205f
    ||| v == 0x3000
}

/// Whether `c` is whitespace.
pub fn is_whitespace(c: char) -> (r: bool)
    ensures
        r == is_white(c),
{
    let v: u32 = c as u32;
    (0x09 <= v && v <= 0x0d) || v == 0x20 || v == 0x85 || v == 0xa0 || v == 0x1680 || (0x2000 <= v
        && v <= 0x200a) || v == 0x2028 || v == 0x2029 || v == 0x202f || v == 0x205f || v == 0x3000
}

/// What separates the pieces of a text.
#[derive(Clone, Copy)]
pub enum Sep {
    /// One given character.
    Char(char),
    /// Any whitespace character.
    Whitespace,
}

impl Sep {
    /// Whether `c` is a separator.
    pub open spec fn matches_char(self, c: char) -> bool {
        match self {
            Sep::Char(x) => c == x,
            Sep::Whitespace => is_white(c),
        }
    }

    fn hits(self, c: char) -> (r: bool)
        ensures
            r == self.matches_char(c),
    {
        match self {
            Sep::Char(x) => c == x,
            Sep::Whitespace => is_whitespace(c),
        }
    }
}

/// The pieces of `s` between separators: one more piece than there are separators.
pub open spec fn split(s: Seq<char>, sep: Sep) -> Seq<Seq<char>>
    decreases s.len(),
{
    if s.len() == 0 {
        seq![s]
    } else {
        let front = split(s.drop_last(), sep);
        if sep.matches_char(s.last()) {
            front.push(Seq::empty())
        } else {
            front.drop_last().push(front.last().push(s.last()))
        }
    }
}

/// The non-empty pieces among `pieces`, in order.
pub open spec fn non_empty(pieces: Seq<Seq<char>>) -> Seq<Seq<char>> {
    pieces.filter(|p: Seq<char>| p.len() > 0)
}

/// The texts that a vector of strings holds.
pub open spec fn texts(v: Seq<String>) -> Seq<Seq<char>> {
    v.map_values(|s: String| s@)
}

/// The characters of `s`, in order.
pub fn chars_of(s: &str) -> (r: Vec<char>)
    ensures
        r@ == s@,
{
    let mut out: Vec<char> = Vec::new();
    for c in it: s.chars()
        invariant
            out@ == s@.take(it.index() as int),
            it.seq() == s@,
    {
        out.push(c);
    }
    out
}

/// Whether two texts are the same.
pub fn same_text(a: &str, b: &str) -> (r: bool)
    ensures
        r == (a@ == b@),
{
    a.to_owned() == b.to_owned()
}

/// `a` followed by `b`.
pub fn join2(a: &str, b: &str) -> (r: String)
    ensures
        r@ == a@ + b@,
{
    let mut out: String = a.to_owned();
    out.append(b);
    out
}

pub proof fn lemma_split_nonempty(s: Seq<char>, sep: Sep)
    ensures
        split(s, sep).len() >= 1,
    decreases s.len(),
{
    if s.len() > 0 {
        lemma_split_nonempty(s.drop_last(), sep);
    }
}

/// The pieces of `s` between separators.
pub fn split_text(s: &str, sep: Sep) -> (r: Vec<String>)
    ensures
        texts(r@) == split(s@, sep),
{
    let chars: Vec<char> = chars_of(s);
    let mut out: Vec<String> = Vec::new();
    let mut start: usize = 0;
    let mut i: usize = 0;
    assert(s@.take(0) == Seq::<char>::empty());
    while i < chars.len()
        invariant
            chars@ == s@,
            start <= i <= chars.len(),
            split(s@.take(i as int), sep) == texts(out@).push(s@.subrange(start as int, i as int)),
        decreases chars.len() - i,
    {
        proof {
            assert(s@.take(i + 1).drop_last() == s@.take(i as int));
            assert(s@.take(i + 1).last() == s@[i as int]);
        }
        let ghost front = split(s@.take(i as int), sep);
        if sep.hits(chars[i]) {
            out.push(s.substring_char(start, i).to_owned());
            start = i + 1;
            proof {
                assert(texts(out@) == front);
                assert(s@.subrange(start as int, i + 1) == Seq::<char>::empty());
            }
        } else {
            proof {
                assert(front.drop_last() == texts(out@));
                assert(s@.subrange(start as int, i as int).push(s@[i as int]) == s@.subrange(
                    start as int,
                    i + 1,
                ));
            }
        }
        i = i + 1;
    }
    out.push(s.substring_char(start, i).to_owned());
    proof {
        assert(s@.take(i as int) == s@);
    }
    out
}

/// The non-empty pieces of `s` between separators.
pub fn split_non_empty(s: &str, sep: Sep) -> (r: Vec<String>)
    ensures
        texts(r@) == non_empty(split(s@, sep)),
{
    let pieces: Vec<String> = split_text(s, sep);
    let ghost all = texts(pieces@);
    let mut out: Vec<String> = Vec::new();
    let mut i: usize = 0;
    assert(all.take(0) == Seq::<Seq<char>>::empty());
    assert(non_empty(all.take(0)) == Seq::<Seq<char>>::empty()) by {
        reveal(Seq::filter);
    }
    while i < pieces.len()
        invariant
            all == texts(pieces@),
            i <= pieces.len(),
            texts(out@) == non_empty(all.take(i as int)),
        decreases pieces.len() - i,
    {
        proof {
            reveal(Seq::filter);
            assert(all.take(i + 1).drop_last() == all.take(i as int));
            assert(all.take(i + 1).last() == pieces@[i as int]@);
        }
        let piece: &String = &pieces[i];
        if !piece.as_str().is_empty() {
            let ghost before = out@;
            out.push(piece.clone());
            proof {
                assert(texts(out@) == texts(before).push(piece@));
            }
        }
        i = i + 1;
    }
    assert(all.take(i as int) == all);
    out
}

/// `s` without its leading whitespace.
pub open spec fn trim_start(s: Seq<char>) -> Seq<char>
    decreases s.len(),
{
    if s.len() > 0 && is_white(s.first()) {
        trim_start(s.drop_first())
    } else {
        s
    }
}

/// `s` without its trailing whitespace.
pub open spec fn trim_end(s: Seq<char>) -> Seq<char>
    decreases s.len(),
{
    if s.len() > 0 && is_white(s.last()) {
        trim_end(s.drop_last())
    } else {
        s
    }
}

/// `s` without its leading and trailing whitespace.
pub open spec fn trimmed(s: Seq<char>) -> Seq<char> {
    trim_end(trim_start(s))
}

/// `s` without its leading and trailing whitespace.
pub fn trim(s: &str) -> (r: &str)
    ensures
        r@ == trimmed(s@),
{
    let chars: Vec<char> = chars_of(s);
    let n: usize = chars.len();
    let mut from: usize = 0;
    assert(s@.skip(0) == s@);
    while from < n && is_whitespace(chars[from])
        invariant
            chars@ == s@,
            n == chars.len(),
            from <= n,
            trim_start(s@) == trim_start(s@.skip(from as int)),
        decreases n - from,
    {
        proof {
            assert(s@.skip(from as int).first() == s@[from as int]);
            assert(s@.skip(from as int).drop_first() == s@.skip(from + 1));
        }
        from = from + 1;
    }
    proof {
        if from < n {
            assert(s@.skip(from as int).first() == s@[from as int]);
        }
    }
    let ghost front = s@.skip(from as int);
    assert(trim_start(s@) == front);
    let mut to: usize = n;
    assert(s@.subrange(from as int, n as int) == front);
    while from < to && is_whitespace(chars[to - 1])
        invariant
            chars@ == s@,
            n == chars.len(),
            from <= to <= n,
            trim_end(front) == trim_end(s@.subrange(from as int, to as int)),
        decreases to - from,
    {
        proof {
            assert(s@.subrange(from as int, to as int).last() == s@[to - 1]);
            assert(s@.subrange(from as int, to as int).drop_last() == s@.subrange(
                from as int,
                to - 1,
            ));
        }
        to = to - 1;
    }
    proof {
        if from < to {
            assert(s@.subrange(from as int, to as int).last() == s@[to - 1]);
        }
    }
    s.substring_char(from, to)
}

/// Whether `pat` occurs in `s` at position `i`.
pub open spec fn occurs_at(s: Seq<char>, pat: Seq<char>, i: int) -> bool {
    &&& 0 <= i
    &&& i + pat.len() <= s.len()
    &&& s.subrange(i, i + pat.len()) == pat
}

/// Whether `pat` occurs in `s`.
pub open spec fn occurs_in(s: Seq<char>, pat: Seq<char>) -> bool {
    exists|i: int| occurs_at(s, pat, i)
}

/// Whether `pat` occurs in `s`.
pub fn contains_text(s: &str, pat: &str) -> (r: bool)
    ensures
        r == occurs_in(s@, pat@),
{
    let n: usize = s.unicode_len();
    let m: usize = pat.unicode_len();
    if m > n {
        return false;
    }
    let mut i: usize = 0;
    while i <= n - m
        invariant
            n == s@.len(),
            m == pat@.len(),
            m <= n,
            i <= n - m + 1,
            forall|j: int| 0 <= j < i ==> !occurs_at(s@, pat@, j),
        decreases n - m + 1 - i,
    {
        if same_text(s.substring_char(i, i + m), pat) {
            assert(occurs_at(s@, pat@, i as int));
            return true;
        }
        if i == n - m {
            assert forall|j: int| !occurs_at(s@, pat@, j) by {
                if occurs_at(s@, pat@, j) {
                    assert(j == i || j < i);
                }
            }
            return false;
        }
        i = i + 1;
    }
    false
}

/// Whether every character of `s` is a decimal digit.
pub open spec fn all_digits(s: Seq<char>) -> bool {
    forall|i: int| 0 <= i < s.len() ==> '0' <= #[trigger] s[i] <= '9'
}

/// The number that a run of decimal digits denotes.
pub open spec fn digits_value(s: Seq<char>) -> nat
    decreases s.len(),
{
    if s.len() == 0 {
        0
    } else {
        (digits_value(s.drop_last()) * 10 + (s.last() as int - '0' as int)) as nat
    }
}

/// The number that an unsigned numeral denotes: an optional `+`, then at least one digit.
pub open spec fn unsigned_value(s: Seq<char>) -> Option<nat> {
    let digits = if s.len() > 0 && s[0] == '+' {
        s.skip(1)
    } else {
        s
    };
    if digits.len() > 0 && all_digits(digits) {
        Some(digits_value(digits))
    } else {
        None
    }
}

proof fn lemma_digits_value_grows(s: Seq<char>, i: int)
    requires
        all_digits(s),
        0 <= i <= s.len(),
    ensures
        digits_value(s.take(i)) <= digits_value(s),
    decreases s.len() - i,
{
    if i < s.len() {
        assert(s.take(i + 1).drop_last() == s.take(i));
        assert('0' <= s[i] <= '9');
        lemma_digits_value_grows(s, i + 1);
    } else {
        assert(s.take(i) == s);
    }
}

/// The number that `s` denotes, where it is an unsigned numeral no larger than `max`.
pub fn parse_unsigned(s: &str, max: u64) -> (r: Option<u64>)
    ensures
        match unsigned_value(s@) {
            Some(v) => if v <= max {
                r == Some(v as u64)
            } else {
                r is None
            },
            None => r is None,
        },
{
    let chars: Vec<char> = chars_of(s);
    let n: usize = chars.len();
    let first: usize = if n > 0 && chars[0] == '+' {
        1
    } else {
        0
    };
    let ghost digits = s@.skip(first as int);
    assert(s@.skip(0) == s@);
    if first == n {
        return None;
    }
    let mut value: u64 = 0;
    let mut i: usize = first;
    assert(digits.take(0) == Seq::<char>::empty());
    while i < n
        invariant
            chars@ == s@,
            n == chars.len(),
            first <= i <= n,
            digits == s@.skip(first as int),
            digits.len() > 0,
            unsigned_value(s@) == (if all_digits(digits) {
                Some(digits_value(digits))
            } else {
                None
            }),
            all_digits(digits.take(i - first)),
            value == digits_value(digits.take(i - first)),
            value <= max,
        decreases n - i,
    {
        let c: char = chars[i];
        assert(digits[i - first] == c);
        if c < '0' || c > '9' {
            return None;
        }
        proof {
            assert(digits.take(i - first + 1).drop_last() == digits.take(i - first));
            assert(digits.take(i - first + 1).last() == c);
            assert forall|j: int| 0 <= j < i - first + 1 implies '0' <= #[trigger] digits.take(
                i - first + 1,
            )[j] <= '9' by {
                if j < i - first {
                    assert(digits.take(i - first)[j] == digits.take(i - first + 1)[j]);
                }
            }
            if all_digits(digits) {
                lemma_digits_value_grows(digits, i - first + 1);
            }
        }
        let d: u64 = (c as u32 - '0' as u32) as u64;
        let next: u128 = value as u128 * 10 + d as u128;
        if next > max as u128 {
            return None;
        }
        value = next as u64;
        i = i + 1;
    }
    assert(digits.take(i - first) == digits);
    Some(value)
}

/// The character of the decimal digit `d`.
pub open spec fn digit_char(d: nat) -> char {
    ('0' as u32 + d) as char
}

/// The decimal numeral of `n`, without leading zeros.
pub open spec fn decimal(n: nat) -> Seq<char>
    decreases n,
{
    if n < 10 {
        seq![digit_char(n)]
    } else {
        decimal(n / 10).push(digit_char(n % 10))
    }
}

/// A decimal numeral is made of digits, denotes its number, and starts with zero only for zero.
pub proof fn lemma_decimal(n: nat)
    ensures
        all_digits(decimal(n)),
        decimal(n).len() >= 1,
        digits_value(decimal(n)) == n,
        decimal(n)[0] == '0' ==> n == 0,
    decreases n,
{
    if n < 10 {
        let s = decimal(n);
        assert(s == seq![digit_char(n)]);
        assert(s.drop_last() == Seq::<char>::empty());
        assert(digits_value(s.drop_last()) == 0);
    } else {
        lemma_decimal(n / 10);
        let s = decimal(n);
        assert(s.drop_last() == decimal(n / 10));
        assert(s[0] == decimal(n / 10)[0]);
        assert forall|i: int| 0 <= i < s.len() implies '0' <= #[trigger] s[i] <= '9' by {
            if i < s.len() - 1 {
                assert(s[i] == decimal(n / 10)[i]);
            }
        }
    }
}

/// A run of digits without a leading zero is the decimal numeral of the number it denotes.
pub proof fn lemma_canonical(s: Seq<char>)
    requires
        all_digits(s),
        s.len() >= 1,
        s[0] == '0' ==> s.len() == 1,
    ensures
        s == decimal(digits_value(s)),
        s[0] != '0' ==> digits_value(s) > 0,
    decreases s.len(),
{
    let d = (s.last() as int - '0' as int) as nat;
    assert('0' <= s[s.len() - 1] <= '9');
    assert(digit_char(d) == s.last());
    if s.len() == 1 {
        assert(s.drop_last() == Seq::<char>::empty());
        assert(digits_value(s.drop_last()) == 0);
        assert(s == seq![s.last()]);
    } else {
        let front = s.drop_last();
        assert(front[0] == s[0]);
        assert forall|i: int| 0 <= i < front.len() implies '0' <= #[trigger] front[i] <= '9' by {
            assert(front[i] == s[i]);
        }
        lemma_canonical(front);
        let v = digits_value(front);
        assert(digits_value(s) == v * 10 + d);
        assert((v * 10 + d) / 10 == v);
        assert((v * 10 + d) % 10 == d);
        assert(s == front.push(s.last()));
    }
}

/// The text of one decimal digit.
fn digit_text(d: u64) -> (r: &'static str)
    requires
        d < 10,
    ensures
        r@ == seq![digit_char(d as nat)],
{
    proof {
        reveal_strlit("0");
        reveal_strlit("1");
        reveal_strlit("2");
        reveal_strlit("3");
        reveal_strlit("4");
        reveal_strlit("5");
        reveal_strlit("6");
        reveal_strlit("7");
        reveal_strlit("8");
        reveal_strlit("9");
    }
    if d == 0 {
        "0"
    } else if d == 1 {
        "1"
    } else if d == 2 {
        "2"
    } else if d == 3 {
        "3"
    } else if d == 4 {
        "4"
    } else if d == 5 {
        "5"
    } else if d == 6 {
        "6"
    } else if d == 7 {
        "7"
    } else if d == 8 {
        "8"
    } else {
        "9"
    }
}

/// The decimal numeral of `n`.
pub fn decimal_text(n: u64) -> (r: String)
    ensures
        r@ == decimal(n as nat),
    decreases n,
{
    if n < 10 {
        digit_text(n).to_owned()
    } else {
        let mut out: String = decimal_text(n / 10);
        let ghost front = out@;
        out.append(digit_text(n % 10));
        assert(out@ == front.push(digit_char((n % 10) as nat)));
        out
    }
}

/// Splitting at a separator between two texts splits each of them.
pub proof fn lemma_split_join(a: Seq<char>, c: char, b: Seq<char>, sep: Sep)
    requires
        sep.matches_char(c),
    ensures
        split(a.push(c) + b, sep) == split(a, sep) + split(b, sep),
    decreases b.len(),
{
    lemma_split_nonempty(b, sep);
    if b.len() == 0 {
        assert(a.push(c) + b == a.push(c));
        assert(a.push(c).drop_last() == a);
        assert(b == Seq::<char>::empty());
        assert(split(b, sep) == seq![Seq::<char>::empty()]);
        assert(split(a, sep).push(Seq::empty()) == split(a, sep) + split(b, sep));
    } else {
        let whole = a.push(c) + b;
        assert(whole.drop_last() == a.push(c) + b.drop_last());
        assert(whole.last() == b.last());
        lemma_split_join(a, c, b.drop_last(), sep);
        lemma_split_nonempty(b.drop_last(), sep);
        let left = split(a, sep);
        let right = split(b.drop_last(), sep);
        if sep.matches_char(b.last()) {
            assert((left + right).push(Seq::empty()) == left + right.push(Seq::empty()));
        } else {
            assert((left + right).last() == right.last());
            assert((left + right).drop_last().push(right.last().push(b.last())) == left
                + right.drop_last().push(right.last().push(b.last())));
        }
    }
}

/// A text without separators is its own only piece.
pub proof fn lemma_split_single(s: Seq<char>, sep: Sep)
    requires
        forall|i: int| 0 <= i < s.len() ==> !sep.matches_char(#[trigger] s[i]),
    ensures
        split(s, sep) == seq![s],
    decreases s.len(),
{
    if s.len() > 0 {
        let front = s.drop_last();
        assert forall|i: int| 0 <= i < front.len() implies !sep.matches_char(#[trigger] front[i]) by {
            assert(front[i] == s[i]);
        }
        lemma_split_single(front, sep);
        assert(!sep.matches_char(s[s.len() - 1]));
        assert(seq![front].drop_last().push(front.push(s.last())) == seq![s]) by {
            assert(front.push(s.last()) == s);
        }
    }
}

/// The pieces put together again, with `c` between them.
pub open spec fn joined(pieces: Seq<Seq<char>>, c: char) -> Seq<char>
    decreases pieces.len(),
{
    if pieces.len() == 0 {
        Seq::empty()
    } else if pieces.len() == 1 {
        pieces[0]
    } else {
        joined(pieces.drop_last(), c).push(c) + pieces.last()
    }
}

/// Splitting a text at a character loses nothing: the pieces joined by it are the text, and no
/// piece holds it.
pub proof fn lemma_split_lossless(s: Seq<char>, c: char)
    ensures
        joined(split(s, Sep::Char(c)), c) == s,
        forall|i: int| 0 <= i < split(s, Sep::Char(c)).len() ==> !(
        #[trigger] split(s, Sep::Char(c))[i]).contains(c),
    decreases s.len(),
{
    let sep = Sep::Char(c);
    let pieces = split(s, sep);
    if s.len() == 0 {
        assert(pieces == seq![s]);
    } else {
        let front = split(s.drop_last(), sep);
        lemma_split_nonempty(s.drop_last(), sep);
        lemma_split_lossless(s.drop_last(), c);
        if s.last() == c {
            assert(pieces.drop_last() == front);
            assert(pieces.last() == Seq::<char>::empty());
            assert(joined(pieces, c) == s.drop_last().push(c) + Seq::<char>::empty());
            assert(joined(pieces, c) == s);
        } else {
            let tail = front.last().push(s.last());
            assert(pieces.drop_last() == front.drop_last());
            assert(pieces.last() == tail);
            assert(front[front.len() - 1] == front.last());
            if front.len() == 1 {
                assert(joined(pieces, c) == tail);
                assert(joined(front, c) == front[0]);
                assert(tail == s);
            } else {
                let head = joined(front.drop_last(), c).push(c);
                assert(head + tail == (head + front.last()).push(s.last()));
                assert(joined(pieces, c) == s);
            }
            assert forall|i: int| 0 <= i < pieces.len() implies !(#[trigger] pieces[i]).contains(
                c,
            ) by {
                if i < pieces.len() - 1 {
                    assert(pieces[i] == front[i]);
                } else {
                    if tail.contains(c) {
                        let k = choose|k: int| 0 <= k < tail.len() && tail[k] == c;
                        assert(front.last()[k] == c);
                    }
                }
            }
        }
    }
}

/// The text of an optional string, or a default.
pub open spec fn text_or_spec(o: Option<String>, default: Seq<char>) -> Seq<char> {
    match o {
        Some(s) => s@,
        None => default,
    }
}

/// The text of an optional string, or a default.
pub fn text_or<'a>(o: &'a Option<String>, default: &'a str) -> (r: &'a str)
    ensures
        r@ == text_or_spec(*o, default@),
{
    match o {
        Some(s) => s.as_str(),
        None => default,
    }
}

/// Trimming takes whitespace off both ends and nothing else: what is left is a part of the text, all
/// that stood before and behind it is whitespace, and it neither begins nor ends with any.
pub proof fn law_trimming_takes_the_ends(s: Seq<char>) -> (r: (int, int))
    ensures
        0 <= r.0 <= r.1 <= s.len(),
        trimmed(s) == s.subrange(r.0, r.1),
        forall|i: int| 0 <= i < r.0 ==> is_white(#[trigger] s[i]),
        forall|i: int| r.1 <= i < s.len() ==> is_white(#[trigger] s[i]),
        r.0 < r.1 ==> !is_white(s[r.0]) && !is_white(s[r.1 - 1]),
{
    let a = lemma_trim_start(s);
    let t = s.skip(a);
    let b = lemma_trim_end(t);
    assert(t.take(b) =~= s.subrange(a, a + b));
    assert forall|i: int| a + b <= i < s.len() implies is_white(#[trigger] s[i]) by {
        assert(t[i - a] == s[i]);
    }
    if b > 0 {
        assert(t[0] == s[a] && t[b - 1] == s[a + b - 1]);
    }
    (a, a + b)
}

proof fn lemma_trim_start(s: Seq<char>) -> (a: int)
    ensures
        0 <= a <= s.len(),
        trim_start(s) == s.skip(a),
        forall|i: int| 0 <= i < a ==> is_white(#[trigger] s[i]),
        a < s.len() ==> !is_white(s[a]),
    decreases s.len(),
{
    if s.len() > 0 && is_white(s[0]) {
        let t = s.drop_first();
        let b = lemma_trim_start(t);
        assert(t.skip(b) =~= s.skip(b + 1));
        assert forall|i: int| 0 <= i < b + 1 implies is_white(#[trigger] s[i]) by {
            if i > 0 {
                assert(t[i - 1] == s[i]);
            }
        }
        if b < t.len() {
            assert(t[b] == s[b + 1]);
        }
        b + 1
    } else {
        assert(s.skip(0) =~= s);
        0
    }
}

proof fn lemma_trim_end(s: Seq<char>) -> (b: int)
    ensures
        0 <= b <= s.len(),
        trim_end(s) == s.take(b),
        forall|i: int| b <= i < s.len() ==> is_white(#[trigger] s[i]),
        b > 0 ==> !is_white(s[b - 1]),
    decreases s.len(),
{
    if s.len() > 0 && is_white(s[s.len() - 1]) {
        let t = s.drop_last();
        let b = lemma_trim_end(t);
        assert(t.take(b) =~= s.take(b));
        assert forall|i: int| b <= i < s.len() implies is_white(#[trigger] s[i]) by {
            if i < t.len() {
                assert(t[i] == s[i]);
            }
        }
        b
    } else {
        assert(s.take(s.len() as int) =~= s);
        s.len() as int
    }
}

/// Of the characters of ASCII, the space, the tabulators, the line feed, the form feed and the
/// carriage return are whitespace, and no other; digits, letters, dots, colons and slashes never are.
pub proof fn law_ascii_whitespace(c: char)
    requires
        (c as u32) < 0x80,
    ensures
        is_white(c) <==> c == ' ' || c == '\t' || c == '\n' || c == '\r' || c as u32 == 0x0b || c
            as u32 == 0x0c,
{
}

/// A numeral is a run of digits, with a plus sign before it or not; the numeral of a number, with or
/// without the sign, denotes the number. The empty text, the sign alone and a text with anything else
/// in it are none.
pub proof fn law_numerals(s: Seq<char>, n: nat)
    ensures
        unsigned_value(decimal(n)) == Some(n),
        unsigned_value(seq!['+'] + decimal(n)) == Some(n),
        unsigned_value(Seq::empty()) is None,
        unsigned_value(seq!['+']) is None,
        unsigned_value(s) is Some ==> forall|i: int|
            0 <= i < s.len() ==> '0' <= #[trigger] s[i] <= '9' || (i == 0 && s[i] == '+'),
{
    lemma_decimal(n);
    let d = decimal(n);
    assert('0' <= d[0] <= '9');
    let p = seq!['+'] + d;
    assert(p.skip(1) =~= d);
    assert(p[0] == '+');
    let e: Seq<char> = Seq::empty();
    assert(seq!['+'].skip(1) =~= e);
    if unsigned_value(s) is Some && s[0] == '+' {
        let t = s.skip(1);
        assert forall|i: int| 0 <= i < s.len() implies '0' <= #[trigger] s[i] <= '9' || (i == 0
            && s[i] == '+') by {
            if i > 0 {
                assert(t[i - 1] == s[i]);
            }
        }
    }
}

/// A leading zero does not change what digits denote, and one more digit makes ten times as much and
/// itself.
pub proof fn law_digits_count(s: Seq<char>, c: char)
    requires
        all_digits(s),
        '0' <= c <= '9',
    ensures
        digits_value(s.push(c)) == 10 * digits_value(s) + (c as int - '0' as int),
        digits_value(seq!['0'] + s) == digits_value(s),
    decreases s.len(),
{
    assert(s.push(c).drop_last() =~= s);
    if s.len() == 0 {
        assert(seq!['0'] + s =~= seq!['0']);
        assert(seq!['0'].drop_last() =~= s);
    } else {
        let front = s.drop_last();
        assert forall|i: int| 0 <= i < front.len() implies '0' <= #[trigger] front[i] <= '9' by {
            assert(front[i] == s[i]);
        }
        law_digits_count(front, c);
        assert((seq!['0'] + s).drop_last() =~= seq!['0'] + front);
        assert((seq!['0'] + s).last() == s.last());
    }
}

/// Of some pieces those that are not empty stay, each of them, in order.
pub proof fn law_empty_pieces_go(a: Seq<Seq<char>>, b: Seq<Seq<char>>, p: Seq<char>)
    ensures
        non_empty(a + b) == non_empty(a) + non_empty(b),
        non_empty(seq![p]) == (if p.len() > 0 {
            seq![p]
        } else {
            Seq::empty()
        }),
    decreases b.len(),
{
    reveal(Seq::filter);
    let none: Seq<Seq<char>> = Seq::empty();
    assert(seq![p].drop_last() =~= none);
    assert(non_empty(none) =~= none);
    assert(non_empty(seq![p]) =~= (if p.len() > 0 {
        seq![p]
    } else {
        none
    }));
    if b.len() > 0 {
        law_empty_pieces_go(a, b.drop_last(), p);
        assert((a + b).drop_last() =~= a + b.drop_last());
        assert((a + b).last() == b.last());
        assert(non_empty(a + b) =~= non_empty(a) + non_empty(b));
    } else {
        assert(a + b =~= a);
        assert(non_empty(a) + none =~= non_empty(a));
    }
}

/// The words of a text that begins with a word and whitespace are that word and those of the rest.
pub proof fn law_words_come_one_by_one(word: Seq<char>, c: char, rest: Seq<char>)
    requires
        word.len() > 0,
        forall|i: int| 0 <= i < word.len() ==> !is_white(#[trigger] word[i]),
        is_white(c),
    ensures
        non_empty(split(word.push(c) + rest, Sep::Whitespace)) == seq![word] + non_empty(
            split(rest, Sep::Whitespace),
        ),
        non_empty(split(word, Sep::Whitespace)) == seq![word],
        non_empty(split(seq![c] + rest, Sep::Whitespace)) == non_empty(
            split(rest, Sep::Whitespace),
        ),
{
    let sep = Sep::Whitespace;
    lemma_split_single(word, sep);
    lemma_split_join(word, c, rest, sep);
    law_empty_pieces_go(seq![word], split(rest, sep), word);
    let e: Seq<char> = Seq::empty();
    lemma_split_single(e, sep);
    lemma_split_join(e, c, rest, sep);
    assert(e.push(c) + rest =~= seq![c] + rest);
    law_empty_pieces_go(seq![e], split(rest, sep), e);
    let none: Seq<Seq<char>> = Seq::empty();
    assert(none + non_empty(split(rest, sep)) =~= non_empty(split(rest, sep)));
}

}
