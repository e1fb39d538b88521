//! Text helpers: building strings, padding them, and reading characters,
//! lines and numbers out of them. Every function is stated over the sequence of
//! characters of a text.

use vstd::prelude::*;
use vstd::utf8::*;

verus! {

broadcast use vstd::string::group_string_axioms;

/// `String::push` appends one character to the end of the text.
pub assume_specification[ String::push ](s: &mut String, c: char)
    ensures
        final(s)@ == old(s)@.push(c),
;

/// The text that `String::from_utf8_lossy` makes of `bytes`: every sequence that
/// is not UTF-8 is shown as the replacement character.
pub uninterp spec fn lossy_utf8(bytes: Seq<u8>) -> Seq<char>;

/// Calls `String::from_utf8_lossy`. The result depends on the bytes alone, and
/// bytes that are UTF-8 come out as the text they encode.
#[verifier::external_body]
pub(crate) fn lossy_text(bytes: &[u8]) -> (r: String)
    ensures
        r@ == lossy_utf8(bytes@),
        valid_utf8(bytes@) ==> r@ == decode_utf8(bytes@),
{
    String::from_utf8_lossy(bytes).into_owned()
}

/// Calls `std::str::from_utf8`, which succeeds exactly on UTF-8 and then gives
/// the text that the bytes encode.
#[verifier::external_body]
pub(crate) fn utf8_text(bytes: &[u8]) -> (r: Option<String>)
    ensures
        r is Some <==> valid_utf8(bytes@),
        r matches Some(s) ==> s@ == decode_utf8(bytes@),
{
    match std::str::from_utf8(bytes) {
        Ok(s) => Some(s.to_owned()),
        Err(_) => None,
    }
}

/// The characters of a text.
pub fn chars_of(s: &str) -> (r: Vec<char>)
    ensures
        r@ == s@,
{
    let mut v: Vec<char> = Vec::new();
    for c in it: s.chars()
        invariant
            v@ == it.seq().take(it.index()),
            it.seq() == s@,
    {
        v.push(c);
        assert(it.seq().take(it.index() as int + 1) == it.seq().take(it.index() as int).push(c));
    }
    assert(v@ == s@);
    v
}

/// The text made of the characters `v[from..to]`.
pub fn text_of(v: &Vec<char>, from: usize, to: usize) -> (r: String)
    requires
        from <= to <= v@.len(),
    ensures
        r@ == v@.subrange(from as int, to as int),
{
    let mut s: String = String::new();
    let mut i: usize = from;
    while i < to
        invariant
            from <= i <= to <= v@.len(),
            s@ == v@.subrange(from as int, i as int),
        decreases to - i,
    {
        s.push(v[i]);
        assert(v@.subrange(from as int, i + 1) == v@.subrange(from as int, i as int).push(
            v@[i as int],
        ));
        i = i + 1;
    }
    s
}

/// Whether `s` ends with `suffix`.
pub open spec fn has_suffix<T>(s: Seq<T>, suffix: Seq<T>) -> bool {
    suffix.len() <= s.len() && s.subrange(s.len() - suffix.len(), s.len() as int) == suffix
}

/// Whether the text `s` ends with the text `suffix`.
pub fn ends_with(s: &str, suffix: &str) -> (r: bool)
    ensures
        r == has_suffix(s@, suffix@),
{
    let a: Vec<char> = chars_of(s);
    let b: Vec<char> = chars_of(suffix);
    if b.len() > a.len() {
        return false;
    }
    let off: usize = a.len() - b.len();
    let mut i: usize = 0;
    while i < b.len()
        invariant
            i <= b@.len(),
            off + b.len() == a.len(),
            forall|j: int| 0 <= j < i ==> a@[off + j] == #[trigger] b@[j],
            a@ == s@,
            b@ == suffix@,
        decreases b@.len() - i,
    {
        if a[off + i] != b[i] {
            assert(a@.subrange(off as int, a@.len() as int)[i as int] != b@[i as int]);
            return false;
        }
        i = i + 1;
    }
    assert(a@.subrange(off as int, a@.len() as int) == b@);
    true
}

/// `n` copies of `c`.
pub open spec fn repeated(c: char, n: nat) -> Seq<char> {
    Seq::new(n, |i: int| c)
}

/// A text of `n` copies of `c`.
pub fn repeat_char(c: char, n: usize) -> (r: String)
    ensures
        r@ == repeated(c, n as nat),
{
    let mut s: String = String::new();
    let mut i: usize = 0;
    while i < n
        invariant
            i <= n,
            s@ == repeated(c, i as nat),
        decreases n - i,
    {
        s.push(c);
        i = i + 1;
        assert(s@ == repeated(c, i as nat));
    }
    s
}

/// How many fill characters bring a text of `len` characters to `width`.
pub open spec fn fill(len: nat, width: nat) -> nat {
    if len < width {
        (width - len) as nat
    } else {
        0
    }
}

/// `s` right-aligned in a column of `width` characters.
pub open spec fn padded_left(s: Seq<char>, width: nat) -> Seq<char> {
    repeated(' ', fill(s.len(), width)) + s
}

/// `s` left-aligned in a column of `width` characters.
pub open spec fn padded_right(s: Seq<char>, width: nat) -> Seq<char> {
    s + repeated(' ', fill(s.len(), width))
}

fn fill_for(s: &str, width: usize) -> (r: usize)
    ensures
        r as nat == fill(s@.len(), width as nat),
{
    let v: Vec<char> = chars_of(s);
    if v.len() < width {
        width - v.len()
    } else {
        0
    }
}

/// Right-aligns `s` in a column of `width` characters.
pub fn pad_left(s: &str, width: usize) -> (r: String)
    ensures
        r@ == padded_left(s@, width as nat),
{
    repeat_char(' ', fill_for(s, width)).concat(s)
}

/// Left-aligns `s` in a column of `width` characters.
pub fn pad_right(s: &str, width: usize) -> (r: String)
    ensures
        r@ == padded_right(s@, width as nat),
{
    let tail: String = repeat_char(' ', fill_for(s, width));
    s.to_owned().concat(tail.as_str())
}

/// The character of a decimal digit.
pub open spec fn digit_char(d: nat) -> char {
    if d == 0 {
        '0'
    } else if d == 1 {
        '1'
    } else if d == 2 {
        '2'
    } else if d == 3 {
        '3'
    } else if d == 4 {
        '4'
    } else if d == 5 {
        '5'
    } else if d == 6 {
        '6'
    } else if d == 7 {
        '7'
    } else if d == 8 {
        '8'
    } else {
        '9'
    }
}

/// `n` in decimal, most significant digit first, without leading zeros.
pub open spec fn decimal(n: nat) -> Seq<char>
    decreases n,
{
    if n < 10 {
        seq![digit_char(n)]
    } else {
        decimal(n / 10).push(digit_char(n % 10))
    }
}

/// The character of a decimal digit.
pub fn digit(d: u64) -> (c: char)
    requires
        d < 10,
    ensures
        c == digit_char(d as nat),
{
    if d == 0 {
        '0'
    } else if d == 1 {
        '1'
    } else if d == 2 {
        '2'
    } else if d == 3 {
        '3'
    } else if d == 4 {
        '4'
    } else if d == 5 {
        '5'
    } else if d == 6 {
        '6'
    } else if d == 7 {
        '7'
    } else if d == 8 {
        '8'
    } else {
        '9'
    }
}

/// Writes `n` in decimal.
pub fn decimal_text(n: u64) -> (r: String)
    ensures
        r@ == decimal(n as nat),
    decreases n,
{
    if n < 10 {
        let mut s: String = String::new();
        s.push(digit(n));
        assert(s@ == seq![digit_char(n as nat)]);
        s
    } else {
        let mut s: String = decimal_text(n / 10);
        s.push(digit(n % 10));
        s
    }
}

/// Writes a count in decimal.
pub fn count_text(n: usize) -> (r: String)
    ensures
        r@ == decimal(n as nat),
{
    decimal_text(n as u64)
}

/// The value of a decimal digit.
pub open spec fn digit_value(c: char) -> Option<nat> {
    if '0' <= c <= '9' {
        Some((c as nat - '0' as nat) as nat)
    } else {
        None
    }
}

/// The number that decimal digits spell, most significant first.
pub open spec fn decimal_value(digits: Seq<char>) -> Option<nat>
    decreases digits.len(),
{
    if digits.len() == 0 {
        Some(0)
    } else {
        match (decimal_value(digits.drop_last()), digit_value(digits.last())) {
            (Some(before), Some(d)) => Some(10 * before + d),
            _ => None,
        }
    }
}

/// The number that a field spells: digits, at least one, after an optional plus
/// sign, no larger than 32 bits can hold.
pub open spec fn field_number(field: Seq<char>) -> Option<nat> {
    let digits = if field.len() > 0 && field[0] == '+' {
        field.drop_first()
    } else {
        field
    };
    if digits.len() == 0 {
        None
    } else {
        match decimal_value(digits) {
            Some(n) => if n <= u32::MAX {
                Some(n)
            } else {
                None
            },
            None => None,
        }
    }
}

proof fn lemma_value_prefix(digits: Seq<char>, n: int)
    requires
        0 <= n <= digits.len(),
    ensures
        match decimal_value(digits) {
            Some(all) => match decimal_value(digits.take(n)) {
                Some(part) => part <= all,
                None => false,
            },
            None => true,
        },
    decreases digits.len() - n,
{
    if n < digits.len() {
        lemma_value_prefix(digits, n + 1);
        assert(digits.take(n + 1).drop_last() =~= digits.take(n));
    } else {
        assert(digits.take(n) =~= digits);
    }
}

/// Reads the number that a field spells.
pub fn number_of(field: &str) -> (r: Option<u32>)
    ensures
        match r {
            Some(n) => field_number(field@) == Some(n as nat),
            None => field_number(field@) is None,
        },
{
    let v: Vec<char> = chars_of(field);
    let from: usize = if v.len() > 0 && v[0] == '+' {
        1
    } else {
        0
    };
    let ghost digits = v@.skip(from as int);
    proof {
        if from == 1 {
            assert(digits =~= field@.drop_first());
        } else {
            assert(digits =~= field@);
        }
    }
    if from == v.len() {
        return None;
    }
    let mut n: u64 = 0;
    let mut i: usize = from;
    assert(digits.take(0) =~= Seq::empty());
    while i < v.len()
        invariant
            from <= i <= v@.len(),
            from < v@.len(),
            digits == v@.skip(from as int),
            field_number(field@) == (match decimal_value(digits) {
                Some(n) => if n <= u32::MAX {
                    Some(n)
                } else {
                    None
                },
                None => None::<nat>,
            }),
            n <= u32::MAX,
            decimal_value(digits.take(i - from)) == Some(n as nat),
        decreases v@.len() - i,
    {
        let c: char = v[i];
        proof {
            assert(digits.take(i - from + 1).drop_last() =~= digits.take(i - from));
            assert(digits.take(i - from + 1).last() == c);
            lemma_value_prefix(digits, i - from + 1);
        }
        if c < '0' || c > '9' {
            return None;
        }
        n = 10 * n + ((c as u64) - ('0' as u64));
        if n > 0xffff_ffff {
            return None;
        }
        i = i + 1;
    }
    assert(digits.take(v@.len() - from) =~= digits);
    Some(n as u32)
}

/// Reading what was written gives the number back.
pub proof fn law_decimal_round_trips(n: nat)
    ensures
        decimal_value(decimal(n)) == Some(n),
        decimal(n).len() > 0,
        forall|i: int| 0 <= i < decimal(n).len() ==> '0' <= #[trigger] decimal(n)[i] <= '9',
    decreases n,
{
    if n < 10 {
        assert(decimal(n).drop_last() =~= Seq::empty());
        assert(decimal_value(decimal(n).drop_last()) == Some(0nat));
    } else {
        law_decimal_round_trips(n / 10);
        assert(decimal(n).drop_last() =~= decimal(n / 10));
    }
}

/// The fields of `s` between the separators `sep`: one more field than there are
/// separators.
pub open spec fn split_on<T>(s: Seq<T>, sep: T) -> Seq<Seq<T>>
    decreases s.len(),
{
    if s.len() == 0 {
        seq![Seq::empty()]
    } else {
        let rest = split_on(s.drop_last(), sep);
        if s.last() == sep {
            rest.push(Seq::empty())
        } else {
            rest.drop_last().push(rest.last().push(s.last()))
        }
    }
}

/// A field without a separator after a separator is a field of its own.
pub proof fn lemma_split_field<T>(front: Seq<T>, field: Seq<T>, sep: T)
    requires
        forall|i: int| 0 <= i < field.len() ==> #[trigger] field[i] != sep,
    ensures
        split_on(front.push(sep) + field, sep) == split_on(front, sep).push(field),
        split_on(field, sep) == seq![field],
    decreases field.len(),
{
    if field.len() == 0 {
        assert(front.push(sep) + field =~= front.push(sep));
        assert(front.push(sep).drop_last() =~= front);
        assert(field =~= Seq::empty());
    } else {
        let shorter = field.drop_last();
        lemma_split_field(front, shorter, sep);
        let all = front.push(sep) + field;
        assert(all.drop_last() =~= front.push(sep) + shorter);
        assert(all.last() == field.last());
        assert(field.last() == field[field.len() - 1]);
        let rest = split_on(front, sep).push(shorter);
        assert(rest.drop_last() =~= split_on(front, sep));
        assert(shorter.push(field.last()) =~= field);
        assert(seq![shorter].drop_last().push(shorter.push(field.last())) =~= seq![field]);
    }
}

/// The fields of a text between the characters `sep`.
pub fn fields_of(s: &str, sep: char) -> (r: Vec<String>)
    ensures
        r@.len() == split_on(s@, sep).len(),
        r@.len() > 0,
        forall|j: int| 0 <= j < r@.len() ==> (#[trigger] r@[j])@ == split_on(s@, sep)[j],
{
    let v: Vec<char> = chars_of(s);
    let mut done: Vec<String> = Vec::new();
    let mut cur: String = String::new();
    let mut i: usize = 0;
    assert(v@.take(0) =~= Seq::empty());
    while i < v.len()
        invariant
            i <= v@.len(),
            done@.len() + 1 == split_on(v@.take(i as int), sep).len(),
            forall|j: int|
                0 <= j < done@.len() ==> (#[trigger] done@[j])@ == split_on(
                    v@.take(i as int),
                    sep,
                )[j],
            cur@ == split_on(v@.take(i as int), sep).last(),
        decreases v@.len() - i,
    {
        let c: char = v[i];
        assert(v@.take(i + 1).drop_last() =~= v@.take(i as int));
        assert(v@.take(i + 1).last() == c);
        if c == sep {
            done.push(cur);
            cur = String::new();
        } else {
            cur.push(c);
        }
        i = i + 1;
    }
    assert(v@.take(v@.len() as int) =~= v@);
    done.push(cur);
    done
}

/// The characters that Unicode calls white space.
pub open spec fn is_white(c: char) -> bool {
    ||| '\u{9}' <= c <= '\u{d}'
    ||| c == ' '
    ||| c == '\u{85}'
    ||| c == '\u{a0}'
    ||| c == '\u{1680}'
    ||| '\u{2000}' <= c <= '\u{200a}'
    ||| c == '\u{2028}'
    ||| c == '\u{2029}'
    ||| c == '\u{202f}'
    ||| c == '\u{205f}'
    ||| c == '\u{3000}'
}

/// Whether `c` is a white space character.
pub fn white(c: char) -> (r: bool)
    ensures
        r == is_white(c),
{
    ('\u{9}' <= c && c <= '\u{d}') || c == ' ' || c == '\u{85}' || c == '\u{a0}' || c == '\u{1680}'
        || ('\u{2000}' <= c && c <= '\u{200a}') || c == '\u{2028}' || c == '\u{2029}' || c
        == '\u{202f}' || c == '\u{205f}' || c == '\u{3000}'
}

/// A kind of characters.
#[derive(Debug, Clone, Copy)]
pub enum CharKind {
    /// White space.
    White,
    /// Anything but white space.
    Black,
    /// One character.
    Only(char),
}

/// Whether `c` is of a kind.
pub open spec fn is_kind(kind: CharKind, c: char) -> bool {
    match kind {
        CharKind::White => is_white(c),
        CharKind::Black => !is_white(c),
        CharKind::Only(only) => c == only,
    }
}

fn of_kind(kind: CharKind, c: char) -> (r: bool)
    ensures
        r == is_kind(kind, c),
{
    match kind {
        CharKind::White => white(c),
        CharKind::Black => !white(c),
        CharKind::Only(only) => c == only,
    }
}

/// How many characters of a kind a text begins with.
pub open spec fn leading(s: Seq<char>, kind: CharKind) -> nat
    decreases s.len(),
{
    if s.len() == 0 || !is_kind(kind, s[0]) {
        0
    } else {
        1 + leading(s.drop_first(), kind)
    }
}

/// How many characters of a kind a text ends with.
pub open spec fn trailing(s: Seq<char>, kind: CharKind) -> nat
    decreases s.len(),
{
    if s.len() == 0 || !is_kind(kind, s.last()) {
        0
    } else {
        1 + trailing(s.drop_last(), kind)
    }
}

/// `s` without the characters of a kind that it begins with.
pub open spec fn trimmed_front(s: Seq<char>, kind: CharKind) -> Seq<char> {
    s.skip(leading(s, kind) as int)
}

/// `s` without the characters of a kind that it ends with.
pub open spec fn trimmed_back(s: Seq<char>, kind: CharKind) -> Seq<char> {
    s.take(s.len() - trailing(s, kind))
}

/// `s` without white space around it.
pub open spec fn trimmed(s: Seq<char>) -> Seq<char> {
    trimmed_back(trimmed_front(s, CharKind::White), CharKind::White)
}

/// The first word of a text, if it has one.
pub open spec fn first_word(s: Seq<char>) -> Option<Seq<char>> {
    let rest = trimmed_front(s, CharKind::White);
    if rest.len() == 0 {
        None
    } else {
        Some(rest.take(leading(rest, CharKind::Black) as int))
    }
}

fn count_leading(v: &Vec<char>, from: usize, kind: CharKind) -> (r: usize)
    requires
        from <= v@.len(),
    ensures
        r as nat == leading(v@.skip(from as int), kind),
        from + r <= v@.len(),
{
    let mut i: usize = from;
    while i < v.len() && of_kind(kind, v[i])
        invariant
            from <= i <= v.len(),
            leading(v@.skip(from as int), kind) == i - from + leading(v@.skip(i as int), kind),
        decreases v@.len() - i,
    {
        assert(v@.skip(i as int).drop_first() =~= v@.skip(i + 1));
        assert(v@.skip(i as int)[0] == v@[i as int]);
        i = i + 1;
    }
    if i < v.len() {
        assert(v@.skip(i as int)[0] == v@[i as int]);
    }
    i - from
}

fn count_trailing(v: &Vec<char>, to: usize, kind: CharKind) -> (r: usize)
    requires
        to <= v@.len(),
    ensures
        r as nat == trailing(v@.take(to as int), kind),
        r <= to,
{
    let mut i: usize = to;
    while i > 0 && of_kind(kind, v[i - 1])
        invariant
            i <= to <= v@.len(),
            trailing(v@.take(to as int), kind) == to - i + trailing(v@.take(i as int), kind),
        decreases i,
    {
        assert(v@.take(i as int).drop_last() =~= v@.take(i - 1));
        assert(v@.take(i as int).last() == v@[i - 1]);
        i = i - 1;
    }
    if i > 0 {
        assert(v@.take(i as int).last() == v@[i - 1]);
    }
    to - i
}

/// Drops the characters of a kind that a text begins with.
pub fn trim_front(s: &str, kind: CharKind) -> (r: String)
    ensures
        r@ == trimmed_front(s@, kind),
{
    let v: Vec<char> = chars_of(s);
    assert(v@.skip(0) =~= v@);
    let n: usize = count_leading(&v, 0, kind);
    assert(v@.skip(n as int) =~= v@.subrange(n as int, v@.len() as int));
    text_of(&v, n, v.len())
}

/// Drops the characters of a kind that a text ends with.
pub fn trim_back(s: &str, kind: CharKind) -> (r: String)
    ensures
        r@ == trimmed_back(s@, kind),
{
    let v: Vec<char> = chars_of(s);
    assert(v@.take(v@.len() as int) =~= v@);
    let n: usize = count_trailing(&v, v.len(), kind);
    assert(v@.take(v@.len() - n) =~= v@.subrange(0, v@.len() - n));
    text_of(&v, 0, v.len() - n)
}

/// Drops the white space around a text.
pub fn trim_text(s: &str) -> (r: String)
    ensures
        r@ == trimmed(s@),
{
    let rest: String = trim_front(s, CharKind::White);
    trim_back(rest.as_str(), CharKind::White)
}

/// The first word of a text.
pub fn word_of(s: &str) -> (r: Option<String>)
    ensures
        match r {
            Some(word) => first_word(s@) == Some(word@),
            None => first_word(s@) is None,
        },
{
    let rest: String = trim_front(s, CharKind::White);
    let v: Vec<char> = chars_of(rest.as_str());
    if v.len() == 0 {
        return None;
    }
    assert(v@.skip(0) =~= v@);
    let n: usize = count_leading(&v, 0, CharKind::Black);
    assert(v@.take(n as int) =~= v@.subrange(0, n as int));
    Some(text_of(&v, 0, n))
}

/// A character that is not of the kind stays when the front is trimmed.
pub proof fn lemma_trim_front_keeps(s: Seq<char>, kind: CharKind, c: char)
    requires
        s.contains(c),
        !is_kind(kind, c),
    ensures
        trimmed_front(s, kind).contains(c),
    decreases s.len(),
{
    let i = choose|i: int| 0 <= i < s.len() && s[i] == c;
    if is_kind(kind, s[0]) {
        let rest = s.drop_first();
        assert(rest[i - 1] == c);
        lemma_trim_front_keeps(rest, kind, c);
        lemma_leading_bound(rest, kind);
        assert(s.skip(leading(s, kind) as int) =~= rest.skip(leading(rest, kind) as int));
    } else {
        assert(s.skip(0) =~= s);
    }
}

/// A character that is not of the kind stays when the back is trimmed.
pub proof fn lemma_trim_back_keeps(s: Seq<char>, kind: CharKind, c: char)
    requires
        s.contains(c),
        !is_kind(kind, c),
    ensures
        trimmed_back(s, kind).contains(c),
    decreases s.len(),
{
    let i = choose|i: int| 0 <= i < s.len() && s[i] == c;
    if is_kind(kind, s.last()) {
        let rest = s.drop_last();
        assert(rest[i] == c);
        lemma_trim_back_keeps(rest, kind, c);
        lemma_trailing_bound(rest, kind);
        assert(trimmed_back(s, kind) =~= trimmed_back(rest, kind));
    } else {
        assert(s.take(s.len() as int) =~= s);
    }
}

proof fn lemma_leading_bound(s: Seq<char>, kind: CharKind)
    ensures
        leading(s, kind) <= s.len(),
    decreases s.len(),
{
    if s.len() > 0 {
        lemma_leading_bound(s.drop_first(), kind);
    }
}

proof fn lemma_trailing_bound(s: Seq<char>, kind: CharKind)
    ensures
        trailing(s, kind) <= s.len(),
    decreases s.len(),
{
    if s.len() > 0 {
        lemma_trailing_bound(s.drop_last(), kind);
    }
}

/// Splitting loses no character but the separators.
pub proof fn lemma_split_keeps(s: Seq<char>, sep: char, c: char) -> (f: int)
    requires
        s.contains(c),
        c != sep,
    ensures
        0 <= f < split_on(s, sep).len(),
        split_on(s, sep)[f].contains(c),
    decreases s.len(),
{
    let i = choose|i: int| 0 <= i < s.len() && s[i] == c;
    let front = s.drop_last();
    let rest = split_on(front, sep);
    lemma_split_some(front, sep);
    if i < front.len() {
        assert(front[i] == c);
        let f = lemma_split_keeps(front, sep, c);
        if s.last() != sep && f == rest.len() - 1 {
            let k = choose|k: int| 0 <= k < rest[f].len() && rest[f][k] == c;
            assert(split_on(s, sep)[f][k] == c);
        } else {
            assert(split_on(s, sep)[f] == rest[f]);
        }
        f
    } else {
        let last = rest.last().push(c);
        assert(last[last.len() - 1] == c);
        assert(split_on(s, sep)[rest.len() - 1] == last);
        rest.len() - 1
    }
}

proof fn lemma_split_some(s: Seq<char>, sep: char)
    ensures
        split_on(s, sep).len() > 0,
    decreases s.len(),
{
    if s.len() > 0 {
        lemma_split_some(s.drop_last(), sep);
    }
}

/// Nothing but digits, and a plus sign in front, is a number.
pub proof fn lemma_number_is_digits(field: Seq<char>, c: char)
    requires
        field.contains(c),
        c != '+',
        digit_value(c) is None,
    ensures
        field_number(field) is None,
{
    let i = choose|i: int| 0 <= i < field.len() && field[i] == c;
    if field[0] == '+' {
        assert(field.drop_first()[i - 1] == c);
        lemma_value_is_digits(field.drop_first(), c);
    } else {
        lemma_value_is_digits(field, c);
    }
}

proof fn lemma_value_is_digits(digits: Seq<char>, c: char)
    requires
        digits.contains(c),
        digit_value(c) is None,
    ensures
        decimal_value(digits) is None,
    decreases digits.len(),
{
    let i = choose|i: int| 0 <= i < digits.len() && digits[i] == c;
    if i < digits.len() - 1 {
        assert(digits.drop_last()[i] == c);
        lemma_value_is_digits(digits.drop_last(), c);
    }
}

/// What stands before a stretch of characters of a kind does not end in that kind,
/// so the stretch is all that is dropped.
pub proof fn law_trimming_the_front(kind: CharKind, before: Seq<char>, rest: Seq<char>)
    requires
        forall|k: int| 0 <= k < before.len() ==> is_kind(kind, #[trigger] before[k]),
        rest.len() == 0 || !is_kind(kind, rest[0]),
    ensures
        leading(before + rest, kind) == before.len(),
        trimmed_front(before + rest, kind) == rest,
    decreases before.len(),
{
    let s = before + rest;
    if before.len() == 0 {
        assert(s =~= rest);
    } else {
        assert(is_kind(kind, before[0]));
        assert(s.drop_first() =~= before.drop_first() + rest);
        assert forall|k: int| 0 <= k < before.drop_first().len() implies is_kind(
            kind,
            #[trigger] before.drop_first()[k],
        ) by {
            assert(is_kind(kind, before[k + 1]));
        }
        law_trimming_the_front(kind, before.drop_first(), rest);
    }
    assert(s.skip(before.len() as int) =~= rest);
}

/// The same of what stands behind.
pub proof fn law_trimming_the_back(kind: CharKind, rest: Seq<char>, after: Seq<char>)
    requires
        forall|k: int| 0 <= k < after.len() ==> is_kind(kind, #[trigger] after[k]),
        rest.len() == 0 || !is_kind(kind, rest.last()),
    ensures
        trailing(rest + after, kind) == after.len(),
        trimmed_back(rest + after, kind) == rest,
    decreases after.len(),
{
    let s = rest + after;
    if after.len() == 0 {
        assert(s =~= rest);
    } else {
        assert(is_kind(kind, after[after.len() - 1]));
        assert(s.drop_last() =~= rest + after.drop_last());
        law_trimming_the_back(kind, rest, after.drop_last());
    }
    assert(s.take(rest.len() as int) =~= rest);
}

/// Trimming drops the white space around a text and nothing of the text: not the
/// white space inside it.
pub proof fn law_trimming(before: Seq<char>, core: Seq<char>, after: Seq<char>)
    requires
        forall|k: int| 0 <= k < before.len() ==> is_white(#[trigger] before[k]),
        forall|k: int| 0 <= k < after.len() ==> is_white(#[trigger] after[k]),
        core.len() == 0 || !is_white(core[0]) && !is_white(core.last()),
    ensures
        trimmed(before + core + after) == core,
{
    let white = CharKind::White;
    assert(forall|k: int| 0 <= k < before.len() ==> is_kind(white, #[trigger] before[k]));
    assert(forall|k: int| 0 <= k < after.len() ==> is_kind(white, #[trigger] after[k]));
    if core.len() == 0 {
        let all = before + after;
        assert(before + core + after =~= all + Seq::empty());
        assert forall|k: int| 0 <= k < all.len() implies is_kind(white, #[trigger] all[k]) by {
            if k < before.len() {
                assert(is_kind(white, before[k]));
            } else {
                assert(is_kind(white, after[k - before.len()]));
            }
        }
        law_trimming_the_front(white, all, Seq::empty());
        assert(trimmed(before + core + after) =~= core);
    } else {
        assert(before + core + after =~= before + (core + after));
        law_trimming_the_front(white, before, core + after);
        law_trimming_the_back(white, core, after);
    }
}

/// The first word of a text is what stands between the white space before it and
/// the next.
pub proof fn law_the_first_word(blank: Seq<char>, word: Seq<char>, rest: Seq<char>)
    requires
        forall|k: int| 0 <= k < blank.len() ==> is_white(#[trigger] blank[k]),
        word.len() > 0,
        forall|k: int| 0 <= k < word.len() ==> !is_white(#[trigger] word[k]),
        rest.len() == 0 || is_white(rest[0]),
    ensures
        first_word(blank + word + rest) == Some(word),
{
    assert(blank + word + rest =~= blank + (word + rest));
    assert(!is_white(word[0]));
    assert(forall|k: int|
        0 <= k < blank.len() ==> is_kind(CharKind::White, #[trigger] blank[k]));
    assert(forall|k: int| 0 <= k < word.len() ==> is_kind(CharKind::Black, #[trigger] word[k]));
    law_trimming_the_front(CharKind::White, blank, word + rest);
    law_trimming_the_front(CharKind::Black, word, rest);
    assert((word + rest).take(word.len() as int) =~= word);
}

/// White space alone holds no word.
pub proof fn law_white_space_holds_no_word(blank: Seq<char>)
    requires
        forall|k: int| 0 <= k < blank.len() ==> is_white(#[trigger] blank[k]),
    ensures
        first_word(blank) is None,
{
    assert(blank + Seq::empty() =~= blank);
    assert(forall|k: int|
        0 <= k < blank.len() ==> is_kind(CharKind::White, #[trigger] blank[k]));
    law_trimming_the_front(CharKind::White, blank, Seq::empty());
}

/// White space is what Unicode gives that property, told by code point.
pub proof fn law_white_space_by_code_point(c: char)
    ensures
        is_white(c) <==> {
            let code = c as int;
            ||| 9 <= code <= 13
            ||| code == 32
            ||| code == 133
            ||| code == 160
            ||| code == 5760
            ||| 8192 <= code <= 8202
            ||| code == 8232
            ||| code == 8233
            ||| code == 8239
            ||| code == 8287
            ||| code == 12288
        },
{
}

/// A text ends with a suffix exactly if it is something followed by the suffix.
pub proof fn law_a_suffix_stands_at_the_end<T>(s: Seq<T>, suffix: Seq<T>)
    ensures
        has_suffix(s, suffix) <==> exists|front: Seq<T>| s == #[trigger] (front + suffix),
{
    if has_suffix(s, suffix) {
        let front = s.take(s.len() - suffix.len());
        assert(s =~= front + suffix);
    }
    assert forall|front: Seq<T>| s == #[trigger] (front + suffix) implies has_suffix(
        s,
        suffix,
    ) by {
        assert(s.subrange(s.len() - suffix.len(), s.len() as int) =~= suffix);
    }
}

/// Padding brings a text to its column without changing it: blanks stand before it
/// or behind it, and a text that is too long stays whole.
pub proof fn law_padding_aligns(s: Seq<char>, width: nat)
    ensures
        padded_left(s, width).len() == if s.len() < width {
            width
        } else {
            s.len()
        },
        padded_right(s, width).len() == padded_left(s, width).len(),
        padded_left(s, width).skip(padded_left(s, width).len() - s.len()) == s,
        padded_right(s, width).take(s.len() as int) == s,
        forall|k: int|
            0 <= k < padded_left(s, width).len() - s.len() ==> #[trigger] padded_left(s, width)[k]
                == ' ',
        forall|k: int|
            s.len() <= k < padded_right(s, width).len() ==> #[trigger] padded_right(s, width)[k]
                == ' ',
{
    let left = padded_left(s, width);
    let right = padded_right(s, width);
    assert(left.skip(left.len() - s.len()) =~= s);
    assert(right.take(s.len() as int) =~= s);
}

/// The fields of a text, put together again with the separator between them.
pub open spec fn rejoined<T>(fields: Seq<Seq<T>>, sep: T) -> Seq<T>
    decreases fields.len(),
{
    if fields.len() == 0 {
        Seq::empty()
    } else if fields.len() == 1 {
        fields[0]
    } else {
        rejoined(fields.drop_last(), sep).push(sep) + fields.last()
    }
}

/// Splitting is undone by joining, and no field holds the separator.
pub proof fn law_splitting_is_undone_by_joining<T>(s: Seq<T>, sep: T)
    ensures
        split_on(s, sep).len() > 0,
        rejoined(split_on(s, sep), sep) == s,
        forall|f: int|
            0 <= f < split_on(s, sep).len() ==> !(#[trigger] split_on(s, sep)[f]).contains(sep),
    decreases s.len(),
{
    let fields = split_on(s, sep);
    if s.len() == 0 {
        assert(fields.len() == 1);
        assert(fields[0] =~= s);
    } else {
        let rest = split_on(s.drop_last(), sep);
        law_splitting_is_undone_by_joining(s.drop_last(), sep);
        if s.last() == sep {
            assert(fields.drop_last() =~= rest);
            assert(rejoined(fields, sep) =~= rejoined(rest, sep).push(sep));
            assert(s =~= s.drop_last().push(sep));
            assert forall|f: int| 0 <= f < fields.len() implies !(#[trigger] fields[f]).contains(
                sep,
            ) by {
                if f < rest.len() {
                    assert(fields[f] == rest[f]);
                }
            }
        } else {
            let c = s.last();
            assert(fields.drop_last() =~= rest.drop_last());
            assert(fields.last() == rest.last().push(c));
            if rest.len() == 1 {
                assert(fields[0] =~= rest[0].push(c));
            }
            assert(rejoined(fields, sep) =~= rejoined(rest, sep).push(c));
            assert(s =~= s.drop_last().push(c));
            assert forall|f: int| 0 <= f < fields.len() implies !(#[trigger] fields[f]).contains(
                sep,
            ) by {
                if f < rest.len() - 1 {
                    assert(fields[f] == rest[f]);
                } else {
                    assert(!rest[rest.len() - 1].contains(sep));
                    let last = rest.last();
                    if last.push(c).contains(sep) {
                        let k = choose|k: int|
                            0 <= k < last.push(c).len() && last.push(c)[k] == sep;
                        assert(last[k] == sep);
                    }
                }
            }
        }
    }
}

/// A digit behind a number makes it ten times as large, and adds the digit.
pub proof fn law_digits_count_by_tens(digits: Seq<char>, c: char)
    requires
        '0' <= c <= '9',
    ensures
        match decimal_value(digits) {
            Some(n) => decimal_value(digits.push(c)) == Some((10 * n + (c as int - 48)) as nat),
            None => decimal_value(digits.push(c)) is None,
        },
        decimal_value(Seq::empty()) == Some(0nat),
{
    assert(digits.push(c).drop_last() =~= digits);
}

/// A field is a number exactly if it is decimal digits, at least one, with or without
/// a plus sign before them, that spell no more than 32 bits can hold.
pub proof fn law_a_field_of_digits_is_a_number(digits: Seq<char>, n: nat)
    requires
        digits.len() > 0,
        digits[0] != '+',
        decimal_value(digits) == Some(n),
    ensures
        n <= u32::MAX ==> field_number(digits) == Some(n) && field_number(seq!['+'] + digits)
            == Some(n),
        n > u32::MAX ==> field_number(digits) is None && field_number(seq!['+'] + digits) is None,
        field_number(Seq::empty()) is None,
        field_number(seq!['+']) is None,
{
    assert((seq!['+'] + digits).drop_first() =~= digits);
    assert(seq!['+'].drop_first() =~= Seq::empty());
}

/// A bar of cells is that many cells of one character.
pub proof fn law_repeating_a_character(c: char, n: nat, k: int)
    ensures
        repeated(c, n).len() == n,
        0 <= k < n ==> repeated(c, n)[k] == c,
{
}

} // verus!
