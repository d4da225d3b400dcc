//! Plain text: decimal notation, searching, splitting, and the few conversions
//! that the standard library does.

use vstd::prelude::*;

verus! {

// ---------------------------------------------------------------------------
// What the standard library does
// ---------------------------------------------------------------------------

/// `String::push` appends the given character and leaves what was there.
pub assume_specification[ std::string::String::push ](s: &mut std::string::String, c: char)
    ensures
        final(s)@ == old(s)@.push(c),
;

/// The lower-case form of a text, as Unicode defines it.
pub uninterp spec fn lowercase(text: Seq<char>) -> Seq<char>;

/// The lower-case form of an ASCII character.
pub open spec fn ascii_lower(c: char) -> char {
    if 'A' <= c && c <= 'Z' {
        ((c as u32) + 32) as char
    } else {
        c
    }
}

/// Whether every character of the text is an ASCII character.
pub open spec fn all_ascii(text: Seq<char>) -> bool {
    forall|i: int| 0 <= i < text.len() ==> (#[trigger] text[i] as u32) < 128
}

/// `str::to_lowercase` gives the Unicode lower-case form, which depends on the text
/// alone. On ASCII text it replaces `A` to `Z` by `a` to `z` and keeps the rest.
#[verifier::external_body]
pub(crate) fn to_lowercase(text: &str) -> (lower: String)
    ensures
        lower@ == lowercase(text@),
        all_ascii(text@) ==> lower@ == text@.map_values(|c: char| ascii_lower(c)),
{
    text.to_lowercase()
}

/// The text that a sequence of bytes holds, with the replacement character in the place
/// of what is not UTF-8.
pub uninterp spec fn lossy_text(bytes: Seq<u8>) -> Seq<char>;

/// `String::from_utf8_lossy` decodes UTF-8 and substitutes the replacement character for
/// invalid sequences; the result depends on the bytes alone. Valid UTF-8 is decoded as it
/// stands.
#[verifier::external_body]
pub(crate) fn decode_lossy(bytes: &[u8]) -> (text: String)
    ensures
        text@ == lossy_text(bytes@),
        vstd::utf8::valid_utf8(bytes@) ==> text@ == vstd::utf8::decode_utf8(bytes@),
{
    String::from_utf8_lossy(bytes).into_owned()
}

// ---------------------------------------------------------------------------
// Lists of words
// ---------------------------------------------------------------------------

/// The texts that a list of strings holds.
pub open spec fn texts(words: Seq<String>) -> Seq<Seq<char>> {
    words.map_values(|w: String| w@)
}

/// Appends a copy of `word` to the list.
pub fn push_word(words: &mut Vec<String>, word: &str)
    ensures
        texts(final(words)@) == texts(old(words)@).push(word@),
{
    words.push(word.to_string());
    assert(texts(words@) =~= texts(old(words)@).push(word@));
}

/// A copy of the list.
pub fn copy_words(words: &Vec<String>) -> (copy: Vec<String>)
    ensures
        texts(copy@) == texts(words@),
{
    let mut copy: Vec<String> = Vec::new();
    let mut i: usize = 0;
    while i < words.len()
        invariant
            i <= words.len(),
            texts(copy@) == texts(words@).take(i as int),
        decreases words.len() - i,
    {
        push_word(&mut copy, words[i].as_str());
        i += 1;
        assert(texts(words@).take(i as int) =~= texts(words@).take(i - 1).push(words[i - 1]@));
    }
    assert(texts(words@).take(i as int) =~= texts(words@));
    copy
}

/// The words of a list, one space between any two.
pub open spec fn joined(words: Seq<Seq<char>>) -> Seq<char>
    decreases words.len(),
{
    if words.len() == 0 {
        Seq::empty()
    } else if words.len() == 1 {
        words[0]
    } else {
        joined(words.drop_last()) + " "@ + words.last()
    }
}

/// Joins the words of a list with one space between any two.
pub fn join(words: &Vec<String>) -> (text: String)
    ensures
        text@ == joined(texts(words@)),
{
    let mut text = String::new();
    let mut i: usize = 0;
    let ghost all = texts(words@);
    while i < words.len()
        invariant
            i <= words.len(),
            all == texts(words@),
            text@ == joined(all.take(i as int)),
        decreases words.len() - i,
    {
        if i > 0 {
            text.append(" ");
        }
        text.append(words[i].as_str());
        proof {
            assert(all.take(i + 1).drop_last() =~= all.take(i as int));
            if i == 0 {
                assert(text@ =~= all[0]);
            }
        }
        i += 1;
    }
    assert(all.take(i as int) =~= all);
    text
}

/// The pieces of a list of lists, one after the other.
pub open spec fn concat<A>(blocks: Seq<Seq<A>>) -> Seq<A>
    decreases blocks.len(),
{
    if blocks.len() == 0 {
        Seq::empty()
    } else {
        concat(blocks.drop_last()) + blocks.last()
    }
}

/// One more block at the end adds its pieces at the end.
pub proof fn lemma_concat_push<A>(blocks: Seq<Seq<A>>, block: Seq<A>)
    ensures
        concat(blocks.push(block)) == concat(blocks) + block,
{
    assert(blocks.push(block).drop_last() =~= blocks);
}

/// A piece of any block is a piece of the whole, and the other way round.
pub proof fn lemma_concat_contains<A>(blocks: Seq<Seq<A>>, piece: A)
    ensures
        concat(blocks).contains(piece) <==> exists|i: int|
            0 <= i < blocks.len() && (#[trigger] blocks[i]).contains(piece),
    decreases blocks.len(),
{
    if blocks.len() > 0 {
        let init = blocks.drop_last();
        lemma_concat_contains(init, piece);
        let front = concat(init);
        let back = blocks.last();
        if concat(blocks).contains(piece) {
            let k = choose|k: int| 0 <= k < concat(blocks).len() && concat(blocks)[k] == piece;
            if k < front.len() {
                assert(front[k] == piece);
                let i = choose|i: int| 0 <= i < init.len() && (#[trigger] init[i]).contains(piece);
                assert(blocks[i].contains(piece));
            } else {
                assert(back[k - front.len()] == piece);
                assert(blocks[blocks.len() - 1].contains(piece));
            }
        }
        if exists|i: int| 0 <= i < blocks.len() && (#[trigger] blocks[i]).contains(piece) {
            let i = choose|i: int| 0 <= i < blocks.len() && (#[trigger] blocks[i]).contains(piece);
            if i < init.len() {
                assert(init[i].contains(piece));
                let k = choose|k: int| 0 <= k < front.len() && front[k] == piece;
                assert(concat(blocks)[k] == piece);
            } else {
                let k = choose|k: int| 0 <= k < back.len() && back[k] == piece;
                assert(concat(blocks)[front.len() + k] == piece);
            }
        }
    }
}

// ---------------------------------------------------------------------------
// Decimal notation
// ---------------------------------------------------------------------------

/// The character that stands for the decimal digit `d`.
pub open spec fn digit(d: nat) -> char {
    if d == 0 {
        '0'
    } else if d == 1 {
        '1'
    } else if d == 2 {
        '2'
    } else if d == 3 {
        '3'
    } else if d == 4 {
        '4'
    } else if d == 5 {
        '5'
    } else if d == 6 {
        '6'
    } else if d == 7 {
        '7'
    } else if d == 8 {
        '8'
    } else {
        '9'
    }
}

/// The decimal notation of `n`, without leading zeros.
pub open spec fn decimal(n: nat) -> Seq<char>
    decreases n,
{
    if n < 10 {
        seq![digit(n)]
    } else {
        decimal(n / 10).push(digit(n % 10))
    }
}

/// The decimal notation of an integer, with a minus sign where it is negative.
pub open spec fn signed_decimal(i: int) -> Seq<char> {
    if i < 0 {
        "-"@ + decimal((-i) as nat)
    } else {
        decimal(i as nat)
    }
}

fn digit_char(d: u128) -> (c: char)
    requires
        d < 10,
    ensures
        c == digit(d as nat),
{
    if d == 0 {
        '0'
    } else if d == 1 {
        '1'
    } else if d == 2 {
        '2'
    } else if d == 3 {
        '3'
    } else if d == 4 {
        '4'
    } else if d == 5 {
        '5'
    } else if d == 6 {
        '6'
    } else if d == 7 {
        '7'
    } else if d == 8 {
        '8'
    } else {
        '9'
    }
}

/// Renders `n` in decimal.
pub fn decimal_text(n: u128) -> (text: String)
    ensures
        text@ == decimal(n as nat),
    decreases n,
{
    if n < 10 {
        let mut text = String::new();
        text.push(digit_char(n));
        assert(text@ =~= decimal(n as nat));
        text
    } else {
        let mut text = decimal_text(n / 10);
        text.push(digit_char(n % 10));
        text
    }
}

/// Renders a signed number in decimal.
pub fn signed_decimal_text(i: i32) -> (text: String)
    ensures
        text@ == signed_decimal(i as int),
{
    if i < 0 {
        let mut text = "-".to_string();
        text.append(decimal_text((-(i as i64)) as u128).as_str());
        text
    } else {
        decimal_text(i as u128)
    }
}

/// Decimal notation is never empty and consists of digits.
pub proof fn lemma_decimal_digits(n: nat)
    ensures
        decimal(n).len() > 0,
        forall|i: int| 0 <= i < decimal(n).len() ==> is_digit(#[trigger] decimal(n)[i]),
    decreases n,
{
    if n >= 10 {
        lemma_decimal_digits(n / 10);
    }
}

/// Two numbers with the same decimal notation are the same number.
pub proof fn lemma_decimal_injective(a: nat, b: nat)
    requires
        decimal(a) == decimal(b),
    ensures
        a == b,
    decreases a,
{
    lemma_decimal_digits(a / 10);
    lemma_decimal_digits(b / 10);
    let last = decimal(a).last();
    if a < 10 {
        assert(decimal(a).len() == 1);
        assert(b < 10);
        assert(decimal(b)[0] == digit(b));
        assert(decimal(a)[0] == digit(a));
    } else {
        assert(decimal(a).len() > 1);
        assert(b >= 10);
        assert(decimal(a).drop_last() =~= decimal(a / 10));
        assert(decimal(b).drop_last() =~= decimal(b / 10));
        lemma_decimal_injective(a / 10, b / 10);
        assert(decimal(a).last() == digit(a % 10));
        assert(decimal(b).last() == digit(b % 10));
    }
}

/// Whether `c` is one of the ten decimal digits.
pub open spec fn is_digit(c: char) -> bool {
    '0' <= c && c <= '9'
}

/// The number that a row of decimal digits denotes.
pub open spec fn digits_value(digits: Seq<char>) -> nat
    decreases digits.len(),
{
    if digits.len() == 0 {
        0
    } else {
        digits_value(digits.drop_last()) * 10 + ((digits.last() as u32) - ('0' as u32)) as nat
    }
}

/// The digits of a number in text form: all of it but for one leading plus sign.
pub open spec fn unsigned_body(text: Seq<char>) -> Seq<char> {
    if text.len() > 0 && text[0] == '+' {
        text.drop_first()
    } else {
        text
    }
}

/// The port number that a text denotes: an optional plus sign, then decimal digits and
/// nothing else, with a value that fits in sixteen bits.
pub open spec fn port_number(text: Seq<char>) -> Option<u16> {
    let body = unsigned_body(text);
    if body.len() > 0 && (forall|i: int| 0 <= i < body.len() ==> is_digit(#[trigger] body[i]))
        && digits_value(body) <= u16::MAX {
        Some(digits_value(body) as u16)
    } else {
        None
    }
}

proof fn lemma_digits_value_grows(digits: Seq<char>, i: int)
    requires
        0 <= i <= digits.len(),
        forall|k: int| 0 <= k < digits.len() ==> is_digit(#[trigger] digits[k]),
    ensures
        digits_value(digits.take(i)) <= digits_value(digits),
    decreases digits.len() - i,
{
    if i == digits.len() {
        assert(digits.take(i) =~= digits);
    } else {
        lemma_digits_value_grows(digits, i + 1);
        assert(digits.take(i + 1).drop_last() =~= digits.take(i));
    }
}

/// Reads a port number.
pub fn parse_port(text: &str) -> (port: Option<u16>)
    ensures
        port == port_number(text@),
{
    let all = characters(text);
    let mut i: usize = if all.len() > 0 && all[0] == '+' { 1 } else { 0 };
    let ghost body = unsigned_body(text@);
    let ghost start = i as int;
    let mut value: u32 = 0;
    assert(body =~= all@.skip(start));
    if i == all.len() {
        return None;
    }
    while i < all.len()
        invariant
            0 <= start <= i <= all.len(),
            start < all.len(),
            all@ == text@,
            body == unsigned_body(text@),
            body == all@.skip(start),
            value <= u16::MAX,
            value == digits_value(body.take(i - start)),
            forall|k: int| 0 <= k < i - start ==> is_digit(#[trigger] body[k]),
        decreases all.len() - i,
    {
        let c = all[i];
        assert(c == body[i - start]);
        if !('0' <= c && c <= '9') {
            return None;
        }
        value = value * 10 + (c as u32 - '0' as u32);
        proof {
            assert(body.take(i + 1 - start).drop_last() =~= body.take(i - start));
        }
        if value > 65535 {
            proof {
                if forall|k: int| 0 <= k < body.len() ==> is_digit(#[trigger] body[k]) {
                    lemma_digits_value_grows(body, i + 1 - start);
                }
            }
            return None;
        }
        i += 1;
    }
    assert(body.take(i - start) =~= body);
    Some(value as u16)
}

// ---------------------------------------------------------------------------
// Searching and splitting
// ---------------------------------------------------------------------------

/// The characters of a text.
pub fn characters(text: &str) -> (all: Vec<char>)
    ensures
        all@ == text@,
{
    let mut all: Vec<char> = Vec::new();
    for c in it: text.chars()
        invariant
            all@.len() == it.index(),
            forall|i: int| 0 <= i < all@.len() ==> all@[i] == it.seq()[i],
            it.seq() == text@,
    {
        all.push(c);
    }
    assert(all@ =~= text@);
    all
}

/// The text between two positions.
pub fn slice_text(all: &Vec<char>, from: usize, to: usize) -> (text: String)
    requires
        from <= to <= all.len(),
    ensures
        text@ == all@.subrange(from as int, to as int),
{
    let mut text = String::new();
    let mut i: usize = from;
    while i < to
        invariant
            from <= i <= to <= all.len(),
            text@ == all@.subrange(from as int, i as int),
        decreases to - i,
    {
        text.push(all[i]);
        i += 1;
        assert(text@ =~= all@.subrange(from as int, i as int));
    }
    text
}

/// Whether two texts are equal.
pub fn same_text(a: &str, b: &str) -> (same: bool)
    ensures
        same == (a@ == b@),
{
    let left = a.to_string();
    let right = b.to_string();
    left == right
}

/// Whether two optional texts are equal.
pub fn same_option(a: &Option<String>, b: &Option<String>) -> (same: bool)
    ensures
        same == (option_text(*a) == option_text(*b)),
{
    match a {
        Some(x) => match b {
            Some(y) => *x == *y,
            None => false,
        },
        None => match b {
            Some(y) => false,
            None => true,
        },
    }
}

/// The text of an optional string.
pub open spec fn option_text(text: Option<String>) -> Option<Seq<char>> {
    match text {
        Some(t) => Some(t@),
        None => None,
    }
}

/// Whether `part` stands in `text` at position `at`.
pub open spec fn stands_at(text: Seq<char>, part: Seq<char>, at: int) -> bool {
    0 <= at && at + part.len() <= text.len() && text.subrange(at, at + part.len()) == part
}

/// Whether `part` occurs in `text`.
pub open spec fn occurs(text: Seq<char>, part: Seq<char>) -> bool {
    exists|at: int| stands_at(text, part, at)
}

/// Tells whether `part` stands in `text` at position `at`.
pub fn found_at(text: &Vec<char>, part: &Vec<char>, at: usize) -> (found: bool)
    ensures
        found == stands_at(text@, part@, at as int),
{
    if text.len() < part.len() || at > text.len() - part.len() {
        return false;
    }
    let mut i: usize = 0;
    while i < part.len()
        invariant
            i <= part.len(),
            at + part.len() <= text.len(),
            text@.subrange(at as int, at + i) == part@.take(i as int),
        decreases part.len() - i,
    {
        if text[at + i] != part[i] {
            assert(text@.subrange(at as int, at + part.len())[i as int] != part@[i as int]);
            return false;
        }
        i += 1;
        assert(text@.subrange(at as int, at + i) =~= part@.take(i as int));
    }
    assert(part@.take(i as int) =~= part@);
    true
}

/// Tells whether `part` occurs in `text`.
pub fn contains(text: &str, part: &str) -> (found: bool)
    ensures
        found == occurs(text@, part@),
{
    let all = characters(text);
    let sought = characters(part);
    let mut at: usize = 0;
    while at < all.len()
        invariant
            at <= all.len(),
            all@ == text@,
            sought@ == part@,
            forall|k: int| 0 <= k < at ==> !stands_at(text@, part@, k),
        decreases all.len() - at,
    {
        if found_at(&all, &sought, at) {
            assert(stands_at(text@, part@, at as int));
            return true;
        }
        at += 1;
    }
    if found_at(&all, &sought, at) {
        assert(stands_at(text@, part@, at as int));
        return true;
    }
    assert forall|k: int| !stands_at(text@, part@, k) by {
        if k > at {
            assert(k + part@.len() > text@.len());
        }
    }
    false
}

/// Accepts every character but `c`.
pub open spec fn other_than(c: char) -> spec_fn(char) -> bool {
    |x: char| x != c
}

/// The text without the characters `c`.
pub open spec fn without(text: Seq<char>, c: char) -> Seq<char> {
    text.filter(other_than(c))
}

/// Removes every occurrence of one character.
pub fn remove_char(text: &str, c: char) -> (rest: String)
    ensures
        rest@ == without(text@, c),
{
    let all = characters(text);
    let mut rest = String::new();
    let mut i: usize = 0;
    let ghost keep = other_than(c);
    assert(all@.take(0).filter(keep) =~= Seq::<char>::empty()) by {
        reveal(Seq::filter);
    }
    while i < all.len()
        invariant
            i <= all.len(),
            keep == other_than(c),
            rest@ == all@.take(i as int).filter(keep),
        decreases all.len() - i,
    {
        if all[i] != c {
            rest.push(all[i]);
        }
        i += 1;
        proof {
            reveal(Seq::filter);
            assert(all@.take(i as int).drop_last() =~= all@.take(i - 1));
        }
    }
    assert(all@.take(i as int) =~= all@);
    rest
}

/// Whether `c` has the Unicode property White_Space.
pub open spec fn is_space(c: char) -> bool {
    ||| 0x9 <= c as u32 <= 0xD
    ||| c as u32 == 0x20
    ||| c as u32 == 0x85
    ||| c as u32 == 0xA0
    ||| c as u32 == 0x1680
    ||| 0x2000 <= c as u32 <= 0x200A
    ||| c as u32 == 0x2028
    ||| c as u32 == 0x2029
    ||| c as u32 == 0x202F
    ||| c as u32 == 0x205F
    ||| c as u32 == 0x3000
}

/// Tells whether `c` has the Unicode property White_Space.
pub fn whitespace(c: char) -> (space: bool)
    ensures
        space == is_space(c),
{
    let n: u32 = c as u32;
    (0x9 <= n && n <= 0xD) || n == 0x20 || n == 0x85 || n == 0xA0 || n == 0x1680 || (0x2000 <= n
        && n <= 0x200A) || n == 0x2028 || n == 0x2029 || n == 0x202F || n == 0x205F || n == 0x3000
}

/// The first position from `i` on that holds no white space, or the end.
pub open spec fn next_word_start(text: Seq<char>, i: int) -> int
    decreases text.len() - i,
{
    if 0 <= i < text.len() && is_space(text[i]) {
        next_word_start(text, i + 1)
    } else {
        i
    }
}

/// The first position from `i` on that holds white space, or the end.
pub open spec fn word_end(text: Seq<char>, i: int) -> int
    decreases text.len() - i,
{
    if 0 <= i < text.len() && !is_space(text[i]) {
        word_end(text, i + 1)
    } else {
        i
    }
}

proof fn lemma_word_bounds(text: Seq<char>, i: int)
    requires
        0 <= i <= text.len(),
    ensures
        i <= next_word_start(text, i) <= text.len(),
        i <= word_end(text, i) <= text.len(),
        next_word_start(text, i) < text.len() ==> word_end(text, next_word_start(text, i))
            > next_word_start(text, i),
    decreases text.len() - i,
{
    if i < text.len() {
        lemma_word_bounds(text, i + 1);
        let a = next_word_start(text, i);
        if a == i {
            assert(word_end(text, i) == word_end(text, i + 1));
        }
    }
}

/// The words of a text from position `i` on: the longest runs without white space.
pub open spec fn words_from(text: Seq<char>, i: int) -> Seq<Seq<char>>
    decreases text.len() - i,
{
    let a = next_word_start(text, i);
    let b = word_end(text, a);
    if 0 <= i <= a < b <= text.len() {
        seq![text.subrange(a, b)] + words_from(text, b)
    } else {
        Seq::empty()
    }
}

/// The word number `n` of the text from position `i` on, if there are that many.
pub open spec fn nth_word(text: Seq<char>, i: int, n: nat) -> Option<Seq<char>> {
    let words = words_from(text, i);
    if n < words.len() {
        Some(words[n as int])
    } else {
        None
    }
}

/// Finds the word number `n` of the text from position `from` on.
pub fn word(all: &Vec<char>, from: usize, n: usize) -> (found: Option<String>)
    requires
        from <= all.len(),
    ensures
        option_text(found) == nth_word(all@, from as int, n as nat),
    decreases n,
{
    proof {
        lemma_word_bounds(all@, from as int);
    }
    let mut a: usize = from;
    while a < all.len() && whitespace(all[a])
        invariant
            from <= a <= all.len(),
            next_word_start(all@, from as int) == next_word_start(all@, a as int),
        decreases all.len() - a,
    {
        a += 1;
    }
    if a == all.len() {
        return None;
    }
    let mut b: usize = a;
    while b < all.len() && !whitespace(all[b])
        invariant
            a <= b <= all.len(),
            word_end(all@, a as int) == word_end(all@, b as int),
        decreases all.len() - b,
    {
        b += 1;
    }
    assert(words_from(all@, from as int) == seq![all@.subrange(a as int, b as int)] + words_from(
        all@,
        b as int,
    ));
    if n == 0 {
        Some(slice_text(all, a, b))
    } else {
        word(all, b, n - 1)
    }
}

/// The first position from `i` on that holds `c`, or the end.
pub open spec fn position(text: Seq<char>, c: char, i: int) -> int
    decreases text.len() - i,
{
    if 0 <= i < text.len() && text[i] != c {
        position(text, c, i + 1)
    } else {
        i
    }
}

/// Where `position` points: at the first `c` from `i` on.
pub proof fn lemma_position(text: Seq<char>, c: char, i: int)
    requires
        0 <= i <= text.len(),
    ensures
        i <= position(text, c, i) <= text.len(),
        position(text, c, i) < text.len() ==> text[position(text, c, i)] == c,
        forall|k: int| i <= k < position(text, c, i) ==> text[k] != c,
    decreases text.len() - i,
{
    if i < text.len() && text[i] != c {
        lemma_position(text, c, i + 1);
    }
}

/// Finds the first position from `from` on that holds `c`, or the end.
pub fn find(all: &Vec<char>, c: char, from: usize) -> (at: usize)
    requires
        from <= all.len(),
    ensures
        at == position(all@, c, from as int),
        from <= at <= all.len(),
{
    let mut at: usize = from;
    while at < all.len() && all[at] != c
        invariant
            from <= at <= all.len(),
            position(all@, c, from as int) == position(all@, c, at as int),
        decreases all.len() - at,
    {
        at += 1;
    }
    at
}

} // verus!
