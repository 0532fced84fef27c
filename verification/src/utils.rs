//! Naming helpers: Pascal-casing of identifiers and decimal rendering of state indices.

use vstd::prelude::*;
use vstd::string::StringSliceAdditionalSpecFns;
use vstd::utf8::encode_utf8_decode_utf8;

verus! {

/// The uppercase mapping of one character, as `char::to_uppercase` yields it.
pub uninterp spec fn uppercase(c: char) -> Seq<char>;

/// The chunks of `s` that underscores delimit. There is always one more chunk
/// than there are underscores, so some chunks may be empty.
pub open spec fn chunks(s: Seq<char>) -> Seq<Seq<char>>
    decreases s.len(),
{
    if s.len() == 0 {
        seq![Seq::<char>::empty()]
    } else {
        let rest = chunks(s.drop_first());
        if s[0] == '_' {
            seq![Seq::<char>::empty()] + rest
        } else {
            rest.update(0, seq![s[0]] + rest[0])
        }
    }
}

/// A chunk with its first character uppercased and the remainder unchanged.
pub open spec fn capitalized(chunk: Seq<char>) -> Seq<char> {
    if chunk.len() == 0 {
        chunk
    } else {
        uppercase(chunk[0]) + chunk.drop_first()
    }
}

/// The capitalized chunks in `parts`, concatenated with no separator.
pub open spec fn joined(parts: Seq<Seq<char>>) -> Seq<char>
    decreases parts.len(),
{
    if parts.len() == 0 {
        Seq::<char>::empty()
    } else {
        capitalized(parts[0]) + joined(parts.drop_first())
    }
}

/// The Pascal-case form of `s`.
pub open spec fn pascal(s: Seq<char>) -> Seq<char> {
    joined(chunks(s))
}

/// What one character adds to the Pascal-case form when a string is scanned
/// from left to right: an underscore adds nothing, a character that begins
/// a chunk (`fresh`) adds `upper`, its uppercase mapping, and any other
/// character adds itself.
pub open spec fn scanned(fresh: bool, c: char, upper: Seq<char>) -> Seq<char> {
    if c == '_' {
        Seq::empty()
    } else if fresh {
        upper
    } else {
        seq![c]
    }
}

/// What remains to be emitted for `s` when scanning left to right; `fresh`
/// says that the next character begins a chunk.
spec fn pascal_from(s: Seq<char>, fresh: bool) -> Seq<char>
    decreases s.len(),
{
    if s.len() == 0 {
        Seq::<char>::empty()
    } else {
        scanned(fresh, s[0], uppercase(s[0])) + pascal_from(s.drop_first(), s[0] == '_')
    }
}

proof fn lemma_chunks_nonempty(s: Seq<char>)
    ensures
        chunks(s).len() >= 1,
    decreases s.len(),
{
    if s.len() != 0 {
        lemma_chunks_nonempty(s.drop_first());
    }
}

/// Scanning character by character emits the joined capitalized chunks.
proof fn lemma_scan(s: Seq<char>)
    ensures
        pascal_from(s, true) == joined(chunks(s)),
        chunks(s).len() >= 1,
        pascal_from(s, false) == chunks(s)[0] + joined(chunks(s).drop_first()),
    decreases s.len(),
{
    lemma_chunks_nonempty(s);
    if s.len() == 0 {
        let one = seq![Seq::<char>::empty()];
        assert(chunks(s) == one);
        assert(joined(one.drop_first()) == Seq::<char>::empty());
        assert(joined(one) =~= Seq::<char>::empty());
        assert(pascal_from(s, false) =~= chunks(s)[0] + joined(chunks(s).drop_first()));
    } else {
        let tail = s.drop_first();
        let rest = chunks(tail);
        lemma_scan(tail);
        if s[0] == '_' {
            let all = seq![Seq::<char>::empty()] + rest;
            assert(all.drop_first() =~= rest);
            assert(joined(all) =~= joined(rest));
            assert(pascal_from(s, false) =~= all[0] + joined(all.drop_first()));
        } else {
            let head = seq![s[0]] + rest[0];
            let all = rest.update(0, head);
            assert(all.drop_first() =~= rest.drop_first());
            assert(head.drop_first() =~= rest[0]);
            assert(capitalized(head) =~= uppercase(s[0]) + rest[0]);
            assert(joined(all) =~= uppercase(s[0]) + rest[0] + joined(rest.drop_first()));
            assert(pascal_from(s, true) =~= joined(all));
            assert(pascal_from(s, false) =~= all[0] + joined(all.drop_first()));
        }
    }
}

/// The Pascal-case form of the empty string is the empty string.
pub proof fn lemma_pascal_of_nothing()
    ensures
        pascal(Seq::empty()) == Seq::<char>::empty(),
{
    let nothing = Seq::<char>::empty();
    lemma_scan(nothing);
}

/// Underscores alone leave nothing: a name made of separators only has only
/// empty chunks.
pub proof fn lemma_pascal_of_separators(s: Seq<char>)
    requires
        forall|i: int| 0 <= i < s.len() ==> s[i] == '_',
    ensures
        pascal(s) == Seq::<char>::empty(),
    decreases s.len(),
{
    lemma_scan(s);
    if s.len() > 0 {
        lemma_pascal_of_separators(s.drop_first());
        lemma_scan(s.drop_first());
    }
}

/// `String::push` appends one character.
pub assume_specification[ String::push ](s: &mut String, c: char)
    ensures
        final(s)@ == old(s)@.push(c),
;

/// Collects what `char::to_uppercase` yields for `c`; the contract names that
/// mapping `uppercase(c)` and claims nothing else of it.
#[verifier::external_body]
fn uppercase_of(c: char) -> (upper: String)
    ensures
        upper@ == uppercase(c),
{
    c.to_uppercase().collect()
}

/// Appends to `result` what the character `c` adds to a Pascal-case form,
/// given `upper`, the uppercase mapping of `c`, and says whether the next
/// character begins a chunk. `fresh` says whether `c` does.
pub fn push_scanned(result: &mut String, fresh: bool, c: char, upper: &str) -> (next: bool)
    ensures
        final(result)@ == old(result)@ + scanned(fresh, c, upper@),
        next == (c == '_'),
{
    if c == '_' {
        assert(result@ + Seq::<char>::empty() =~= result@);
        true
    } else if fresh {
        result.append(upper);
        false
    } else {
        result.push(c);
        assert(result@ =~= old(result)@ + seq![c]);
        false
    }
}

/// Pascal-cases `snake_case_str`: every underscore-delimited chunk gets its
/// first character uppercased, and the chunks are joined with no separator.
pub fn to_pascal_case(snake_case_str: &str) -> (result: String)
    ensures
        result@ == pascal(snake_case_str@),
{
    let mut result = String::new();
    let mut fresh = true;
    proof {
        assert(snake_case_str@.skip(0) =~= snake_case_str@);
    }
    for c in it: snake_case_str.chars()
        invariant
            it.seq() == snake_case_str@,
            result@ + pascal_from(snake_case_str@.skip(it.index() as int), fresh) == pascal_from(
                snake_case_str@,
                true,
            ),
    {
        let ghost before = result@;
        let ghost here = snake_case_str@.skip(it.index() as int);
        proof {
            assert(here.drop_first() =~= snake_case_str@.skip(it.index() + 1));
            assert(here[0] == c);
        }
        let next = if fresh && c != '_' {
            let upper = uppercase_of(c);
            push_scanned(&mut result, fresh, c, upper.as_str())
        } else {
            push_scanned(&mut result, fresh, c, "")
        };
        proof {
            assert(result@ + pascal_from(here.drop_first(), next) =~= before + pascal_from(
                here,
                fresh,
            ));
        }
        fresh = next;
    }
    proof {
        assert(result@ + Seq::<char>::empty() =~= result@);
        lemma_scan(snake_case_str@);
    }
    result
}

/// The decimal digit that stands for `d`.
pub open spec fn digit(d: nat) -> char
    recommends
        d < 10,
{
    (48 + d) as char
}

/// The decimal numeral of `n`, most significant digit first, with no padding.
pub open spec fn digits(n: nat) -> Seq<char>
    decreases n,
{
    if n < 10 {
        seq![digit(n)]
    } else {
        digits(n / 10).push(digit(n % 10))
    }
}

/// A decimal numeral is made of digits, at least one, and of one digit only
/// for a number below ten.
pub proof fn lemma_digits_are_digits(n: nat)
    ensures
        digits(n).len() >= 1,
        n >= 10 ==> digits(n).len() >= 2,
        forall|i: int| 0 <= i < digits(n).len() ==> '0' <= #[trigger] digits(n)[i] <= '9',
    decreases n,
{
    if n >= 10 {
        lemma_digits_are_digits(n / 10);
    }
}

/// Different numbers have different decimal numerals.
pub proof fn lemma_digits_differ(a: nat, b: nat)
    requires
        a != b,
    ensures
        digits(a) != digits(b),
    decreases a,
{
    lemma_digits_are_digits(a);
    lemma_digits_are_digits(b);
    if a < 10 || b < 10 {
        if a < 10 && b < 10 {
            assert(digits(a)[0] == digit(a));
            assert(digits(b)[0] == digit(b));
        }
    } else {
        if digits(a) == digits(b) {
            assert(digits(a).drop_last() =~= digits(a / 10));
            assert(digits(b).drop_last() =~= digits(b / 10));
            assert(digits(a).last() == digit(a % 10));
            assert(digits(b).last() == digit(b % 10));
            if a / 10 != b / 10 {
                lemma_digits_differ(a / 10, b / 10);
            }
        }
    }
}

/// Renders `n` as a decimal numeral.
pub fn decimal(n: usize) -> (text: String)
    ensures
        text@ == digits(n as nat),
    decreases n,
{
    if n < 10 {
        let mut text = String::new();
        text.push((48u8 + n as u8) as char);
        assert(text@ =~= seq![digit(n as nat)]);
        text
    } else {
        let mut text = decimal(n / 10);
        text.push((48u8 + (n % 10) as u8) as char);
        text
    }
}

/// Whether two strings hold the same characters.
pub fn same_text(a: &str, b: &str) -> (same: bool)
    ensures
        same == (a@ == b@),
{
    let left = a.as_bytes();
    let right = b.as_bytes();
    proof {
        // Strings with the same encoding are the same string.
        encode_utf8_decode_utf8(a@);
        encode_utf8_decode_utf8(b@);
    }
    let n = left.len();
    if n != right.len() {
        return false;
    }
    let mut i: usize = 0;
    while i < n
        invariant
            n == left@.len(),
            n == right@.len(),
            left@ == a.spec_bytes(),
            right@ == b.spec_bytes(),
            i <= n,
            left@.take(i as int) == right@.take(i as int),
        decreases n - i,
    {
        if left[i] != right[i] {
            return false;
        }
        proof {
            assert(left@.take(i + 1) =~= left@.take(i as int).push(left@[i as int]));
            assert(right@.take(i + 1) =~= right@.take(i as int).push(right@[i as int]));
        }
        i += 1;
    }
    proof {
        assert(left@.take(n as int) =~= left@);
        assert(right@.take(n as int) =~= right@);
    }
    true
}

} // verus!
