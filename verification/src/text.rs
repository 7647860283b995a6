//! Plain text: words, decimal numbers, comparison of names.
//!
//! Text is modelled by the sequence of its characters.

use vstd::prelude::*;

verus! {

/// The texts that a list of strings holds.
pub open spec fn texts(list: Seq<String>) -> Seq<Seq<char>> {
    list.map_values(|s: String| s@)
}

/// The characters of `s`.
pub fn chars_of(s: &str) -> (r: Vec<char>)
    ensures
        r@ == s@,
{
    let mut out: Vec<char> = Vec::new();
    for c in it: s.chars()
        invariant
            out@ == s@.take(it.index() as int),
            it.seq() == s@,
    {
        out.push(c);
        assert(s@.take(it.index() + 1) == s@.take(it.index() as int).push(c));
    }
    assert(s@.take(s@.len() as int) == s@);
    out
}

/// Whether `a` and `b` are the same text.
pub fn same_text(a: &str, b: &str) -> (r: bool)
    ensures
        r == (a@ == b@),
{
    a.to_owned() == b.to_owned()
}

// ── Words ───────────────────────────────────────────────────────────────

/// The characters that Unicode calls white space.
pub open spec fn is_space(c: char) -> bool {
    ||| '\u{9}' <= c <= '\u{d}'
    ||| c == '\u{20}'
    ||| c == '\u{85}'
    ||| c == '\u{a0}'
    ||| c == '\u{1680}'
    ||| '\u{2000}' <= c <= '\u{200a}'
    ||| c == '\u{2028}'
    ||| c == '\u{2029}'
    ||| c == '\u{202f}'
    ||| c == '\u{205f}'
    ||| c == '\u{3000}'
}

/// Whether Unicode calls `c` white space.
pub fn is_white_space(c: char) -> (r: bool)
    ensures
        r == is_space(c),
{
    ('\u{9}' <= c && c <= '\u{d}') || c == '\u{20}' || c == '\u{85}' || c == '\u{a0}' || c
        == '\u{1680}' || ('\u{2000}' <= c && c <= '\u{200a}') || c == '\u{2028}' || c == '\u{2029}'
        || c == '\u{202f}' || c == '\u{205f}' || c == '\u{3000}'
}

/// The words of a text: its longest runs of characters that are no white
/// space, in order.
pub open spec fn words(s: Seq<char>) -> Seq<Seq<char>>
    decreases s.len(),
{
    if s.len() == 0 {
        Seq::empty()
    } else {
        let before = words(s.drop_last());
        if is_space(s.last()) {
            before
        } else if s.len() == 1 || is_space(s[s.len() - 2]) {
            before.push(seq![s.last()])
        } else {
            before.drop_last().push(before.last().push(s.last()))
        }
    }
}

/// Splits `s` into its words.
pub fn split_words(s: &str) -> (r: Vec<String>)
    ensures
        texts(r@) == words(s@),
{
    let chars: Vec<char> = chars_of(s);
    let mut done: Vec<String> = Vec::new();
    let mut i: usize = 0;
    // Where the word that ends at `i` starts; `i` itself between words.
    let mut start: usize = 0;
    assert(texts(done@) == words(s@.take(0)));
    while i < chars.len()
        invariant
            chars@ == s@,
            start <= i <= chars.len(),
            start == i ==> texts(done@) == words(s@.take(i as int)),
            start == i ==> i == 0 || is_space(s@[i - 1]),
            start < i ==> !is_space(s@[i - 1]),
            start < i ==> words(s@.take(i as int)) == texts(done@).push(
                s@.subrange(start as int, i as int),
            ),
        decreases chars.len() - i,
    {
        let c: char = chars[i];
        let ghost before = s@.take(i as int);
        let ghost after = s@.take(i + 1);
        assert(after.drop_last() == before);
        assert(after.last() == c);
        assert(i > 0 ==> after[after.len() - 2] == s@[i - 1]);
        if is_white_space(c) {
            if start < i {
                let ghost old_done = texts(done@);
                let word: String = s.substring_char(start, i).to_owned();
                done.push(word);
                assert(texts(done@) == old_done.push(word@));
            }
            start = i + 1;
        } else if start < i {
            let ghost run = s@.subrange(start as int, i as int);
            assert(words(before).drop_last() == texts(done@));
            assert(words(before).last() == run);
            assert(run.push(c) == s@.subrange(start as int, i + 1));
        } else {
            assert(seq![c] == s@.subrange(start as int, i + 1));
        }
        i = i + 1;
    }
    assert(s@.take(i as int) == s@);
    if start < i {
        let ghost old_done = texts(done@);
        let word: String = s.substring_char(start, i).to_owned();
        done.push(word);
        assert(texts(done@) == old_done.push(word@));
    }
    done
}

/// Whether `w` is a word: not empty, and without white space.
pub open spec fn is_word(w: Seq<char>) -> bool {
    w.len() > 0 && forall|i: int| 0 <= i < w.len() ==> !is_space(#[trigger] w[i])
}

proof fn lemma_append_word(s: Seq<char>, w: Seq<char>)
    requires
        s.len() == 0 || is_space(s.last()),
        is_word(w),
    ensures
        words(s + w) == words(s).push(w),
    decreases w.len(),
{
    let t = s + w;
    let front = w.drop_last();
    assert(t.drop_last() == s + front);
    assert(t.last() == w.last());
    if w.len() == 1 {
        assert(s + front == s);
        assert(w == seq![w.last()]);
        assert(s.len() > 0 ==> t[t.len() - 2] == s.last());
    } else {
        assert(forall|i: int| 0 <= i < front.len() ==> front[i] == w[i]);
        lemma_append_word(s, front);
        assert(t[t.len() - 2] == w[w.len() - 2]);
        assert(words(s).push(front).drop_last() == words(s));
        assert(front.push(w.last()) == w);
    }
}

/// Splitting undoes joining: the words of a text that joins words by blanks
/// are those words.
pub proof fn words_of_joined(list: Seq<Seq<char>>)
    requires
        forall|i: int| 0 <= i < list.len() ==> is_word(#[trigger] list[i]),
    ensures
        words(joined(list, seq![' '])) == list,
    decreases list.len(),
{
    if list.len() == 0 {
        assert(list == Seq::<Seq<char>>::empty());
    } else {
        let front = list.drop_last();
        let last = list.last();
        assert(is_word(list[list.len() - 1]));
        assert forall|i: int| 0 <= i < front.len() implies is_word(#[trigger] front[i]) by {
            assert(front[i] == list[i]);
        }
        words_of_joined(front);
        assert(front.push(last) == list);
        if list.len() == 1 {
            lemma_append_word(Seq::empty(), last);
            assert(Seq::<char>::empty() + last == last);
            assert(front == Seq::<Seq<char>>::empty());
        } else {
            let before = joined(front, seq![' ']);
            assert((before + seq![' ']).drop_last() == before);
            lemma_append_word(before + seq![' '], last);
        }
    }
}

// ── Decimal numbers ─────────────────────────────────────────────────────

/// Why a text is no number of 64 bits.
#[derive(Clone, Copy, Debug, PartialEq, Eq, Structural)]
pub enum ParseIntError {
    /// There is no text at all.
    Empty,
    /// A character is no decimal digit, or there is none behind the sign.
    InvalidDigit,
    /// The number is too large.
    PosOverflow,
}

/// Whether `c` is one of the ten decimal digits.
pub open spec fn is_digit(c: char) -> bool {
    '0' <= c <= '9'
}

/// Whether `s` consists of decimal digits.
pub open spec fn all_digits(s: Seq<char>) -> bool {
    forall|i: int| 0 <= i < s.len() ==> is_digit(#[trigger] s[i])
}

/// The number that the decimal digits `s` denote.
pub open spec fn number(s: Seq<char>) -> nat
    decreases s.len(),
{
    if s.len() == 0 {
        0
    } else {
        number(s.drop_last()) * 10 + (s.last() as nat - '0' as nat) as nat
    }
}

/// The text behind an optional leading plus sign.
pub open spec fn unsigned(s: Seq<char>) -> Seq<char> {
    if s.len() > 0 && s[0] == '+' {
        s.skip(1)
    } else {
        s
    }
}

/// Whether `s` starts with digits that already denote too large a number.
pub open spec fn overflows(s: Seq<char>) -> bool {
    exists|k: int|
        0 <= k <= s.len() && all_digits(#[trigger] s.take(k)) && number(s.take(k)) > u64::MAX
}

/// What reading `s` as a number of 64 bits gives: an optional plus sign, then
/// digits only. Of several faults the leftmost one is reported.
pub open spec fn parsed_u64(s: Seq<char>) -> Result<u64, ParseIntError> {
    let digits = unsigned(s);
    if s.len() == 0 {
        Err(ParseIntError::Empty)
    } else if digits.len() > 0 && all_digits(digits) && number(digits) <= u64::MAX {
        Ok(number(digits) as u64)
    } else if overflows(digits) {
        Err(ParseIntError::PosOverflow)
    } else {
        Err(ParseIntError::InvalidDigit)
    }
}

/// More digits never denote a smaller number.
proof fn lemma_number_grows(s: Seq<char>, k: int)
    requires
        0 <= k <= s.len(),
    ensures
        number(s.take(k)) <= number(s),
    decreases s.len(),
{
    if k < s.len() {
        lemma_number_grows(s.drop_last(), k);
        assert(s.drop_last().take(k) == s.take(k));
    } else {
        assert(s.take(k) == s);
    }
}

/// Reads `s` as a number of 64 bits.
pub fn parse_u64(s: &str) -> (r: Result<u64, ParseIntError>)
    ensures
        r == parsed_u64(s@),
{
    let chars: Vec<char> = chars_of(s);
    let n: usize = chars.len();
    if n == 0 {
        return Err(ParseIntError::Empty);
    }
    let start: usize = if chars[0] == '+' {
        1
    } else {
        0
    };
    let ghost digits = unsigned(s@);
    if start == n {
        proof {
            assert(digits.len() == 0);
            assert forall|k: int| 0 <= k <= digits.len() implies number(#[trigger] digits.take(k))
                == 0 by {
                assert(digits.take(k).len() == 0);
            }
        }
        return Err(ParseIntError::InvalidDigit);
    }
    let mut i: usize = start;
    let mut total: u64 = 0;
    while i < n
        invariant
            chars@ == s@,
            n == chars.len(),
            start <= 1,
            start == (if s@[0] == '+' {
                1int
            } else {
                0int
            }),
            digits == unsigned(s@),
            n > 0,
            digits.len() == n - start,
            digits.len() > 0,
            start <= i <= n,
            forall|j: int| 0 <= j < digits.len() ==> #[trigger] digits[j] == s@[j + start],
            all_digits(digits.take(i - start)),
            total == number(digits.take(i - start)),
        decreases n - i,
    {
        let c: char = chars[i];
        let ghost k = i - start;
        let ghost seen = digits.take(k);
        let ghost next = digits.take(k + 1);
        assert(next.drop_last() == seen);
        assert(next.last() == digits[k]);
        if !('0' <= c && c <= '9') {
            proof {
                assert(!is_digit(digits[k]));
                assert forall|m: int|
                    0 <= m <= digits.len() && all_digits(#[trigger] digits.take(m)) implies number(
                    digits.take(m),
                ) <= u64::MAX by {
                    if m > k {
                        assert(digits.take(m)[k] == digits[k]);
                    } else {
                        lemma_number_grows(seen, m);
                        assert(seen.take(m) == digits.take(m));
                    }
                }
            }
            return Err(ParseIntError::InvalidDigit);
        }
        let d: u64 = c as u64 - '0' as u64;
        assert(next == seen.push(digits[k]));
        if total > (u64::MAX - d) / 10 {
            proof {
                assert(all_digits(next));
                assert(number(next) > u64::MAX);
                lemma_number_grows(digits, k + 1);
                assert(all_digits(digits.take(k + 1)) && number(digits.take(k + 1)) > u64::MAX);
            }
            return Err(ParseIntError::PosOverflow);
        }
        total = total * 10 + d;
        i = i + 1;
    }
    assert(digits.take(n - start) == digits);
    Ok(total)
}

/// The character of the digit `d`.
pub open spec fn digit_char(d: nat) -> char {
    if d == 0 {
        '0'
    } else if d == 1 {
        '1'
    } else if d == 2 {
        '2'
    } else if d == 3 {
        '3'
    } else if d == 4 {
        '4'
    } else if d == 5 {
        '5'
    } else if d == 6 {
        '6'
    } else if d == 7 {
        '7'
    } else if d == 8 {
        '8'
    } else {
        '9'
    }
}

/// The decimal digits of `n`, without leading zeros.
pub open spec fn decimal(n: nat) -> Seq<char>
    decreases n,
{
    if n < 10 {
        seq![digit_char(n)]
    } else {
        decimal(n / 10).push(digit_char(n % 10))
    }
}

/// Appends the decimal digits of `n`.
pub fn push_decimal(out: &mut String, n: u64)
    ensures
        final(out)@ == old(out)@ + decimal(n as nat),
    decreases n,
{
    if n >= 10 {
        push_decimal(out, n / 10);
    }
    let d: u64 = n % 10;
    let digit: &str = if d == 0 {
        "0"
    } else if d == 1 {
        "1"
    } else if d == 2 {
        "2"
    } else if d == 3 {
        "3"
    } else if d == 4 {
        "4"
    } else if d == 5 {
        "5"
    } else if d == 6 {
        "6"
    } else if d == 7 {
        "7"
    } else if d == 8 {
        "8"
    } else {
        "9"
    };
    proof {
        reveal_strlit("0");
        reveal_strlit("1");
        reveal_strlit("2");
        reveal_strlit("3");
        reveal_strlit("4");
        reveal_strlit("5");
        reveal_strlit("6");
        reveal_strlit("7");
        reveal_strlit("8");
        reveal_strlit("9");
        assert(digit@ == seq![digit_char(d as nat)]);
    }
    out.append(digit);
}

proof fn lemma_decimal_digits(n: nat)
    ensures
        decimal(n).len() > 0,
        all_digits(decimal(n)),
        number(decimal(n)) == n,
    decreases n,
{
    if n < 10 {
        assert(decimal(n).drop_last() == Seq::<char>::empty());
        assert(number(Seq::<char>::empty()) == 0);
    } else {
        lemma_decimal_digits(n / 10);
        assert(decimal(n).drop_last() == decimal(n / 10));
    }
}

/// The digits of a number are one word.
pub proof fn decimal_is_word(n: nat)
    ensures
        is_word(decimal(n)),
{
    lemma_decimal_digits(n);
    assert forall|i: int| 0 <= i < decimal(n).len() implies !is_space(#[trigger] decimal(n)[i]) by {
        assert(is_digit(decimal(n)[i]));
    }
}

/// Reading back the digits of a number gives the number.
pub proof fn parse_of_decimal(n: u64)
    ensures
        parsed_u64(decimal(n as nat)) == Ok::<u64, ParseIntError>(n),
{
    let s = decimal(n as nat);
    lemma_decimal_digits(n as nat);
    assert(is_digit(s[0]));
    assert(unsigned(s) == s);
}

// ── Names ───────────────────────────────────────────────────────────────

/// The code point of `c`, an ASCII capital counted as its small letter.
pub open spec fn folded(c: char) -> int {
    if 'A' <= c <= 'Z' {
        c as int + 32
    } else {
        c as int
    }
}

/// Whether two names differ at most in the case of ASCII letters.
pub open spec fn same_name(a: Seq<char>, b: Seq<char>) -> bool {
    &&& a.len() == b.len()
    &&& forall|i: int| 0 <= i < a.len() ==> folded(#[trigger] a[i]) == folded(b[i])
}

fn fold_char(c: char) -> (r: u32)
    ensures
        r == folded(c),
{
    if 'A' <= c && c <= 'Z' {
        c as u32 + 32
    } else {
        c as u32
    }
}

/// Whether `a` and `b` differ at most in the case of ASCII letters.
pub fn eq_ignore_ascii_case(a: &str, b: &str) -> (r: bool)
    ensures
        r == same_name(a@, b@),
{
    let x: Vec<char> = chars_of(a);
    let y: Vec<char> = chars_of(b);
    if x.len() != y.len() {
        return false;
    }
    let mut i: usize = 0;
    while i < x.len()
        invariant
            x@ == a@,
            y@ == b@,
            x.len() == y.len(),
            i <= x.len(),
            forall|j: int| 0 <= j < i ==> folded(#[trigger] a@[j]) == folded(b@[j]),
        decreases x.len() - i,
    {
        if fold_char(x[i]) != fold_char(y[i]) {
            assert(folded(a@[i as int]) != folded(b@[i as int]));
            return false;
        }
        i = i + 1;
    }
    true
}

/// Alphabetical order by code point, a text before its own continuations.
pub open spec fn precedes(a: Seq<char>, b: Seq<char>) -> bool
    decreases a.len(),
{
    if b.len() == 0 {
        false
    } else if a.len() == 0 {
        true
    } else if a[0] != b[0] {
        a[0] < b[0]
    } else {
        precedes(a.skip(1), b.skip(1))
    }
}

/// Whether `a` stands before `b` in alphabetical order.
pub fn is_before(a: &str, b: &str) -> (r: bool)
    ensures
        r == precedes(a@, b@),
{
    let x: Vec<char> = chars_of(a);
    let y: Vec<char> = chars_of(b);
    let mut i: usize = 0;
    assert(a@.skip(0) == a@ && b@.skip(0) == b@);
    while i < x.len() && i < y.len()
        invariant
            x@ == a@,
            y@ == b@,
            i <= x.len(),
            i <= y.len(),
            precedes(a@, b@) == precedes(a@.skip(i as int), b@.skip(i as int)),
        decreases x.len() - i,
    {
        if x[i] != y[i] {
            return x[i] < y[i];
        }
        assert(a@.skip(i as int).skip(1) == a@.skip(i + 1));
        assert(b@.skip(i as int).skip(1) == b@.skip(i + 1));
        i = i + 1;
    }
    i < y.len()
}

/// No text stands before itself, of two different texts exactly one stands
/// before the other, and the order is transitive.
pub proof fn order_is_total(a: Seq<char>, b: Seq<char>, c: Seq<char>)
    ensures
        !precedes(a, a),
        precedes(a, b) || precedes(b, a) || a == b,
        !(precedes(a, b) && precedes(b, a)),
        precedes(a, b) && precedes(b, c) ==> precedes(a, c),
    decreases a.len() + b.len() + c.len(),
{
    if a.len() > 0 {
        order_is_total(
            a.skip(1),
            if b.len() > 0 {
                b.skip(1)
            } else {
                b
            },
            if c.len() > 0 {
                c.skip(1)
            } else {
                c
            },
        );
        if b.len() > 0 && a[0] == b[0] && a.skip(1) == b.skip(1) {
            assert(a == seq![a[0]] + a.skip(1));
            assert(b == seq![b[0]] + b.skip(1));
        }
    } else if b.len() == 0 {
        assert(a == b);
    }
}

/// The texts of `list` in order, with `between` between neighbours.
pub open spec fn joined(list: Seq<Seq<char>>, between: Seq<char>) -> Seq<char>
    decreases list.len(),
{
    if list.len() == 0 {
        Seq::empty()
    } else if list.len() == 1 {
        list[0]
    } else {
        joined(list.drop_last(), between) + between + list.last()
    }
}

/// Joins the texts of `list`, with `between` between neighbours.
pub fn join(list: &Vec<String>, between: &str) -> (r: String)
    ensures
        r@ == joined(texts(list@), between@),
{
    let mut out: String = String::new();
    let mut i: usize = 0;
    let ghost all = texts(list@);
    assert(out@ == joined(all.take(0), between@));
    while i < list.len()
        invariant
            i <= list.len(),
            all == texts(list@),
            out@ == joined(all.take(i as int), between@),
        decreases list.len() - i,
    {
        assert(all.take(i + 1).drop_last() == all.take(i as int));
        assert(all.take(i + 1).last() == list@[i as int]@);
        if i > 0 {
            out.append(between);
        }
        out.append(list[i].as_str());
        i = i + 1;
    }
    assert(all.take(i as int) == all);
    out
}

// ── Quoted identifiers ──────────────────────────────────────────────────

/// `s` with each double quote doubled.
pub open spec fn doubled(s: Seq<char>) -> Seq<char>
    decreases s.len(),
{
    if s.len() == 0 {
        Seq::empty()
    } else if s.last() == '"' {
        doubled(s.drop_last()).push('"').push('"')
    } else {
        doubled(s.drop_last()).push(s.last())
    }
}

/// `s` as a quoted SQL identifier.
pub open spec fn quoted(s: Seq<char>) -> Seq<char> {
    seq!['"'] + doubled(s) + seq!['"']
}

/// Quotes a SQL identifier.
pub fn quote_ident(name: &str) -> (r: String)
    ensures
        r@ == quoted(name@),
{
    let chars: Vec<char> = chars_of(name);
    proof {
        reveal_strlit("\"");
    }
    let mut out: String = "\"".to_owned();
    let mut i: usize = 0;
    assert(seq!['"'] + doubled(name@.take(0)) == seq!['"']);
    while i < chars.len()
        invariant
            chars@ == name@,
            i <= chars.len(),
            "\""@ == seq!['"'],
            out@ == seq!['"'] + doubled(name@.take(i as int)),
        decreases chars.len() - i,
    {
        let ghost before = doubled(name@.take(i as int));
        assert(name@.take(i + 1).drop_last() == name@.take(i as int));
        assert(name@.subrange(i as int, i + 1) == seq![name@[i as int]]);
        out.append(name.substring_char(i, i + 1));
        assert(out@ == seq!['"'] + before.push(name@[i as int]));
        if chars[i] == '"' {
            out.append("\"");
            assert(out@ == seq!['"'] + before.push('"').push('"'));
        }
        i = i + 1;
    }
    assert(name@.take(i as int) == name@);
    out.append("\"");
    out
}

/// How a SQL scanner reads on inside a quoted identifier, `s` being the text
/// behind the opening quote: the name and what follows the closing quote. A
/// doubled quote stands for one quote, a single one ends the identifier.
pub open spec fn scanned(s: Seq<char>) -> Option<(Seq<char>, Seq<char>)>
    decreases s.len(),
{
    if s.len() == 0 {
        None
    } else if s[0] != '"' {
        match scanned(s.skip(1)) {
            Some((name, rest)) => Some((seq![s[0]] + name, rest)),
            None => None,
        }
    } else if s.len() > 1 && s[1] == '"' {
        match scanned(s.skip(2)) {
            Some((name, rest)) => Some((seq!['"'] + name, rest)),
            None => None,
        }
    } else {
        Some((Seq::empty(), s.skip(1)))
    }
}

proof fn lemma_doubled_first(s: Seq<char>)
    requires
        s.len() > 0,
    ensures
        doubled(s) == (if s[0] == '"' {
            seq!['"', '"']
        } else {
            seq![s[0]]
        }) + doubled(s.skip(1)),
    decreases s.len(),
{
    if s.len() == 1 {
        assert(s.drop_last() == Seq::<char>::empty());
        assert(s.skip(1) == Seq::<char>::empty());
        assert(doubled(Seq::<char>::empty()) == Seq::<char>::empty());
    } else {
        lemma_doubled_first(s.drop_last());
        assert(s.drop_last().skip(1) == s.skip(1).drop_last());
    }
}

/// Quoting is safe: whatever text follows that does not itself start with a
/// quote, a SQL scanner reads exactly the quoted name, and goes on behind it.
pub proof fn quoting_is_exact(name: Seq<char>, rest: Seq<char>)
    requires
        rest.len() == 0 || rest[0] != '"',
    ensures
        quoted(name)[0] == '"',
        scanned((quoted(name) + rest).skip(1)) == Some((name, rest)),
    decreases name.len(),
{
    let s = (quoted(name) + rest).skip(1);
    assert(s == doubled(name) + seq!['"'] + rest);
    if name.len() == 0 {
        assert(s.skip(1) == rest);
        assert(name == Seq::<char>::empty());
    } else {
        let tail = name.skip(1);
        lemma_doubled_first(name);
        quoting_is_exact(tail, rest);
        let t = (quoted(tail) + rest).skip(1);
        assert(t == doubled(tail) + seq!['"'] + rest);
        assert(name == seq![name[0]] + tail);
        if name[0] == '"' {
            assert(s.skip(2) == t);
        } else {
            assert(s.skip(1) == t);
        }
    }
}

// ── Laws ────────────────────────────────────────────────────────────────

/// The texts of a list are those of its strings, one by one.
pub proof fn texts_are_views(list: Seq<String>, i: int)
    ensures
        texts(list).len() == list.len(),
        0 <= i < list.len() ==> texts(list)[i] == list[i]@,
{
}

proof fn lemma_has_words(s: Seq<char>)
    requires
        s.len() > 0,
        !is_space(s.last()),
    ensures
        words(s).len() > 0,
{
}

/// White space splits a text: the words of a text are those in front of any
/// white space in it, and then those behind it.
pub proof fn words_split_at_space(a: Seq<char>, c: char, b: Seq<char>)
    requires
        is_space(c),
    ensures
        words(a + seq![c] + b) == words(a) + words(b),
    decreases b.len(),
{
    let t = a + seq![c] + b;
    if b.len() == 0 {
        assert(t.drop_last() == a);
        assert(t.last() == c);
        assert(words(b) == Seq::<Seq<char>>::empty());
        assert(words(a) + words(b) == words(a));
    } else {
        let front = b.drop_last();
        words_split_at_space(a, c, front);
        assert(t.drop_last() == a + seq![c] + front);
        assert(t.last() == b.last());
        if b.len() == 1 {
            assert(t[t.len() - 2] == c);
        } else {
            assert(t[t.len() - 2] == b[b.len() - 2]);
        }
        if !is_space(b.last()) {
            if b.len() == 1 || is_space(b[b.len() - 2]) {
                let w = seq![b.last()];
                assert((words(a) + words(front)).push(w) == words(a) + words(front).push(w));
            } else {
                assert(front.last() == b[b.len() - 2]);
                lemma_has_words(front);
                let before = words(a) + words(front);
                assert(before.drop_last() == words(a) + words(front).drop_last());
                assert(before.last() == words(front).last());
                let w = before.last().push(b.last());
                assert(before.drop_last().push(w) == words(a) + words(front).drop_last().push(w));
            }
        }
    }
}

/// A text without white space is its only word, and the empty text has none.
pub proof fn words_of_one(w: Seq<char>)
    requires
        forall|i: int| 0 <= i < w.len() ==> !is_space(#[trigger] w[i]),
    ensures
        w.len() > 0 ==> words(w) == seq![w],
        w.len() == 0 ==> words(w).len() == 0,
{
    if w.len() > 0 {
        lemma_append_word(Seq::empty(), w);
        assert(Seq::<char>::empty() + w == w);
        assert(words(Seq::<char>::empty()) == Seq::<Seq<char>>::empty());
        assert(Seq::<Seq<char>>::empty().push(w) == seq![w]);
    }
}

/// One character is a number exactly where it is a digit, and no character is
/// none at all.
pub proof fn parse_of_one(c: char)
    ensures
        parsed_u64(Seq::empty()) == Err::<u64, ParseIntError>(ParseIntError::Empty),
        '0' <= c <= '9' ==> parsed_u64(seq![c]) == Ok::<u64, ParseIntError>(
            (c as int - 48) as u64,
        ),
        !('0' <= c <= '9') ==> parsed_u64(seq![c]) == Err::<u64, ParseIntError>(
            ParseIntError::InvalidDigit,
        ),
{
    let s = seq![c];
    assert(s.drop_last() == Seq::<char>::empty());
    assert(number(Seq::<char>::empty()) == 0);
    let d = unsigned(s);
    if '0' <= c <= '9' {
        assert(d == s);
    } else {
        assert forall|k: int| 0 <= k <= d.len() && all_digits(#[trigger] d.take(k)) implies number(
            d.take(k),
        ) == 0 by {
            if k > 0 {
                assert(d.take(k)[0] == c);
                assert(is_digit(d.take(k)[0]));
            }
            assert(d.take(k) == Seq::<char>::empty());
        }
        if d.len() > 0 {
            assert(d[0] == c);
        }
    }
}

/// How one more character changes what a text is read as: a digit is put
/// behind the number, as far as that stays within 64 bits; any other character
/// spoils it; and what is no number becomes none, but for a lone plus sign,
/// which is not counted.
pub proof fn parse_of_more(s: Seq<char>, c: char)
    requires
        s.len() > 0,
    ensures
        ({
            let r = parsed_u64(s.push(c));
            match parsed_u64(s) {
                Ok(n) => if !('0' <= c <= '9') {
                    r == Err::<u64, ParseIntError>(ParseIntError::InvalidDigit)
                } else if n * 10 + (c as int - 48) <= u64::MAX {
                    r == Ok::<u64, ParseIntError>((n * 10 + (c as int - 48)) as u64)
                } else {
                    r == Err::<u64, ParseIntError>(ParseIntError::PosOverflow)
                },
                Err(e) => if s == seq!['+'] {
                    r == parsed_u64(seq![c])
                } else {
                    r == Err::<u64, ParseIntError>(e)
                },
            }
        }),
{
    let t = s.push(c);
    let d = unsigned(s);
    let e = unsigned(t);
    assert(t[0] == s[0]);
    assert(e == d.push(c));
    assert(e.drop_last() == d);
    assert(e.take(e.len() as int) == e);
    assert(d.take(d.len() as int) == d);
    assert(all_digits(e) <==> all_digits(d) && is_digit(c)) by {
        if all_digits(e) {
            assert forall|i: int| 0 <= i < d.len() implies is_digit(#[trigger] d[i]) by {
                assert(e[i] == d[i]);
            }
            assert(e[d.len() as int] == c);
        }
    }
    assert(overflows(e) <==> overflows(d) || (all_digits(e) && number(e) > u64::MAX)) by {
        if overflows(d) {
            let k = choose|k: int|
                0 <= k <= d.len() && all_digits(#[trigger] d.take(k)) && number(d.take(k))
                    > u64::MAX;
            assert(e.take(k) == d.take(k));
        }
        if all_digits(e) && number(e) > u64::MAX {
            assert(all_digits(e.take(e.len() as int)));
        }
        if overflows(e) {
            let k = choose|k: int|
                0 <= k <= e.len() && all_digits(#[trigger] e.take(k)) && number(e.take(k))
                    > u64::MAX;
            if k < e.len() {
                assert(d.take(k) == e.take(k));
            }
        }
    }
    if overflows(d) && all_digits(d) {
        let k = choose|k: int|
            0 <= k <= d.len() && all_digits(#[trigger] d.take(k)) && number(d.take(k)) > u64::MAX;
        lemma_number_grows(d, k);
    }
    if d.len() > 0 && all_digits(d) && number(d) > u64::MAX {
        assert(all_digits(d.take(d.len() as int)));
    }
    if overflows(d) && all_digits(e) {
        lemma_number_grows(e, d.len() as int);
        assert(e.take(d.len() as int) == d);
    }
    if d.len() == 0 {
        assert(s == seq!['+']);
        assert(e == seq![c]);
        assert(number(d) == 0);
        if overflows(d) {
            let k = choose|k: int|
                0 <= k <= d.len() && all_digits(#[trigger] d.take(k)) && number(d.take(k))
                    > u64::MAX;
            assert(d.take(k) == d);
        }
        parse_of_one(c);
        assert(number(e) == number(d) * 10 + (c as nat - '0' as nat) as nat);
    }
}

/// Digits are written without leading zeros.
pub proof fn decimal_is_shortest(n: nat)
    ensures
        decimal(0) == seq!['0'],
        n > 0 ==> decimal(n).len() > 0 && decimal(n)[0] != '0',
    decreases n,
{
    if n >= 10 {
        decimal_is_shortest(n / 10);
        assert(decimal(n)[0] == decimal(n / 10)[0]);
    }
}

/// Two names match exactly where they have one length and, at each place, the
/// characters are equal or are the capital and the small form of one ASCII
/// letter.
pub proof fn names_match_but_for_case(a: Seq<char>, b: Seq<char>)
    ensures
        same_name(a, b) <==> a.len() == b.len() && forall|i: int|
            0 <= i < a.len() ==> (#[trigger] a[i] == b[i] || ('A' <= a[i] <= 'Z' && b[i] as int
                == a[i] as int + 32) || ('A' <= b[i] <= 'Z' && a[i] as int == b[i] as int + 32)),
{
    if a.len() == b.len() && forall|i: int|
        0 <= i < a.len() ==> (#[trigger] a[i] == b[i] || ('A' <= a[i] <= 'Z' && b[i] as int
            == a[i] as int + 32) || ('A' <= b[i] <= 'Z' && a[i] as int == b[i] as int + 32)) {
        assert forall|i: int| 0 <= i < a.len() implies folded(#[trigger] a[i]) == folded(b[i]) by {
            let x = a[i];
            assert(x == b[i] || ('A' <= x <= 'Z' && b[i] as int == x as int + 32) || ('A' <= b[i]
                <= 'Z' && x as int == b[i] as int + 32));
        }
    }
    if same_name(a, b) {
        assert forall|i: int| 0 <= i < a.len() implies (#[trigger] a[i] == b[i] || ('A' <= a[i]
            <= 'Z' && b[i] as int == a[i] as int + 32) || ('A' <= b[i] <= 'Z' && a[i] as int
            == b[i] as int + 32)) by {
            assert(folded(a[i]) == folded(b[i]));
        }
    }
}

/// A text stands before another exactly where it is a beginning of it, or has
/// the smaller character at the first place where they differ.
pub proof fn order_is_by_first_difference(a: Seq<char>, b: Seq<char>)
    ensures
        precedes(a, b) <==> exists|k: int|
            0 <= k <= a.len() && k < b.len() && #[trigger] a.take(k) == b.take(k) && (k == a.len()
                || a[k] < b[k]),
    decreases a.len(),
{
    if b.len() > 0 {
        if a.len() == 0 {
            assert(a.take(0) == b.take(0));
        } else if a[0] != b[0] {
            if a[0] < b[0] {
                assert(a.take(0) == b.take(0));
            }
            if exists|k: int|
                0 <= k <= a.len() && k < b.len() && #[trigger] a.take(k) == b.take(k) && (k
                    == a.len() || a[k] < b[k]) {
                let k = choose|k: int|
                    0 <= k <= a.len() && k < b.len() && #[trigger] a.take(k) == b.take(k) && (k
                        == a.len() || a[k] < b[k]);
                if k > 0 {
                    assert(a.take(k)[0] == b.take(k)[0]);
                }
            }
        } else {
            let x = a.skip(1);
            let y = b.skip(1);
            order_is_by_first_difference(x, y);
            if precedes(x, y) {
                let k = choose|k: int|
                    0 <= k <= x.len() && k < y.len() && #[trigger] x.take(k) == y.take(k) && (k
                        == x.len() || x[k] < y[k]);
                assert forall|i: int| 0 <= i < k + 1 implies a[i] == b[i] by {
                    if i > 0 {
                        assert(x.take(k)[i - 1] == y.take(k)[i - 1]);
                    }
                }
                assert(a.take(k + 1) == b.take(k + 1));
            }
            if exists|k: int|
                0 <= k <= a.len() && k < b.len() && #[trigger] a.take(k) == b.take(k) && (k
                    == a.len() || a[k] < b[k]) {
                let k = choose|k: int|
                    0 <= k <= a.len() && k < b.len() && #[trigger] a.take(k) == b.take(k) && (k
                        == a.len() || a[k] < b[k]);
                assert(k > 0);
                assert forall|i: int| 0 <= i < k - 1 implies x[i] == y[i] by {
                    assert(a.take(k)[i + 1] == b.take(k)[i + 1]);
                }
                assert(x.take(k - 1) == y.take(k - 1));
            }
        }
    }
}

/// Joining goes part by part: two lists that hold something are joined by
/// joining each and putting the separator once in between.
pub proof fn joined_by_parts(x: Seq<Seq<char>>, y: Seq<Seq<char>>, between: Seq<char>)
    ensures
        x.len() == 0 ==> joined(x, between) == Seq::<char>::empty(),
        x.len() == 1 ==> joined(x, between) == x[0],
        x.len() > 0 && y.len() > 0 ==> joined(x + y, between) == joined(x, between) + between
            + joined(y, between),
    decreases y.len(),
{
    if x.len() > 0 && y.len() > 0 {
        let t = x + y;
        assert(t.last() == y.last());
        if y.len() == 1 {
            assert(t.drop_last() == x);
        } else {
            let front = y.drop_last();
            assert(t.drop_last() == x + front);
            joined_by_parts(x, front, between);
            assert(joined(x, between) + between + joined(front, between) + between + y.last()
                == joined(x, between) + between + (joined(front, between) + between + y.last()));
        }
    }
}

/// Quoting goes character by character: a quote becomes two, any other
/// character stays, and a quote stands at either end.
pub proof fn quoted_by_characters(a: Seq<char>, b: Seq<char>, c: char)
    ensures
        doubled(Seq::empty()) == Seq::<char>::empty(),
        doubled(seq![c]) == (if c == '"' {
            seq![c, c]
        } else {
            seq![c]
        }),
        doubled(a + b) == doubled(a) + doubled(b),
        quoted(a).len() == doubled(a).len() + 2,
        quoted(a).first() == '"' && quoted(a).last() == '"',
        quoted(a).subrange(1, quoted(a).len() - 1) == doubled(a),
    decreases b.len(),
{
    assert(seq![c].drop_last() == Seq::<char>::empty());
    assert(doubled(Seq::<char>::empty()) == Seq::<char>::empty());
    assert(doubled(seq![c]) == (if c == '"' {
        seq![c, c]
    } else {
        seq![c]
    }));
    if b.len() == 0 {
        assert(a + b == a);
        assert(doubled(a) + doubled(b) == doubled(a));
    } else {
        quoted_by_characters(a, b.drop_last(), c);
        assert((a + b).drop_last() == a + b.drop_last());
        assert((a + b).last() == b.last());
        assert(doubled(a + b) == doubled(a) + doubled(b));
    }
    assert(quoted(a).subrange(1, quoted(a).len() - 1) == doubled(a));
}

} // verus!
