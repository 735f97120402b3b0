//! Labels: a window's application id or title, cut down to a short token.

use vstd::prelude::*;
use vstd::std_specs::iter::IteratorSpec;
use vstd::string::*;
use vstd::utf8::encode_utf8;

verus! {

/// The longest text, in bytes of UTF-8, that is shown unchanged.
pub const MAX_BYTES: usize = 12;

/// How many characters are kept of a first word that is longer than `MAX_BYTES`.
pub const KEPT_CHARS: usize = 8;

/// The mark put behind a first word that was cut.
pub const CUT_MARK: char = '~';

/// Whether `c` has the Unicode property `White_Space`.
pub open spec fn is_whitespace(c: char) -> bool {
    let u = c as u32;
    ||| 0x09 <= u <= 0x0D
    ||| u == 0x20
    ||| u == 0x85
    ||| u == 0xA0
    ||| u == 0x1680
    ||| 0x2000 <= u <= 0x200A
    ||| u == 0x2028
    ||| u == 0x2029
    ||| u == 0x202F
    ||| u == 0x205F
    ||| u == 0x3000
}

/// The length of `s` in bytes of UTF-8.
pub open spec fn utf8_len(s: Seq<char>) -> nat {
    encode_utf8(s).len()
}

/// The number of characters of `s` that stand before its first white space.
pub open spec fn word_len(s: Seq<char>) -> nat
    decreases s.len(),
{
    if s.len() == 0 || is_whitespace(s.first()) {
        0
    } else {
        1 + word_len(s.drop_first())
    }
}

/// The first word of `s`: everything before its first white space.
pub open spec fn first_word(s: Seq<char>) -> Seq<char> {
    s.take(word_len(s) as int)
}

/// The first `n` characters of `s`, or all of `s` where it has fewer.
pub open spec fn leading(s: Seq<char>, n: nat) -> Seq<char> {
    if s.len() <= n {
        s
    } else {
        s.take(n as int)
    }
}

/// The label that stands for the text `raw`.
///
/// A text of at most `MAX_BYTES` bytes is its own label. A longer one is cut to
/// its first word, and where that word is still longer than `MAX_BYTES` bytes,
/// to its first `KEPT_CHARS` characters followed by `CUT_MARK`.
pub open spec fn normalized(raw: Seq<char>) -> Seq<char> {
    if utf8_len(raw) <= MAX_BYTES {
        raw
    } else if utf8_len(first_word(raw)) <= MAX_BYTES {
        first_word(raw)
    } else {
        leading(first_word(raw), KEPT_CHARS as nat).push(CUT_MARK)
    }
}

/// `word_len(s)` is the one position that has no white space before it and
/// either white space at it or the end of `s`.
pub proof fn lemma_word_len(s: Seq<char>)
    ensures
        word_len(s) <= s.len(),
        forall|i: int| 0 <= i < word_len(s) ==> !is_whitespace(#[trigger] s[i]),
        word_len(s) < s.len() ==> is_whitespace(s[word_len(s) as int]),
    decreases s.len(),
{
    if s.len() != 0 && !is_whitespace(s.first()) {
        let rest = s.drop_first();
        lemma_word_len(rest);
        assert forall|i: int| 0 <= i < word_len(s) implies !is_whitespace(#[trigger] s[i]) by {
            if i > 0 {
                assert(s[i] == rest[i - 1]);
            }
        }
        if word_len(s) < s.len() {
            assert(s[word_len(s) as int] == rest[word_len(rest) as int]);
        }
    }
}

/// A position with no white space before it, and with white space at it or
/// the end of `s`, is `word_len(s)`.
pub proof fn lemma_word_len_is(s: Seq<char>, k: nat)
    requires
        k <= s.len(),
        forall|i: int| 0 <= i < k ==> !is_whitespace(#[trigger] s[i]),
        k < s.len() ==> is_whitespace(s[k as int]),
    ensures
        word_len(s) == k,
    decreases s.len(),
{
    if k > 0 {
        let rest = s.drop_first();
        assert(!is_whitespace(s[0]));
        assert forall|i: int| 0 <= i < k - 1 implies !is_whitespace(#[trigger] rest[i]) by {
            assert(rest[i] == s[i + 1]);
        }
        lemma_word_len_is(rest, (k - 1) as nat);
    }
}

/// A text has at least one byte and at most four for each character.
pub proof fn lemma_utf8_len_bounds(s: Seq<char>)
    ensures
        s.len() <= utf8_len(s) <= 4 * s.len(),
    decreases s.len(),
{
    if s.len() > 0 {
        lemma_utf8_len_bounds(s.drop_first());
    }
}

/// A label never has more than `MAX_BYTES` characters.
pub proof fn lemma_normalized_is_short(raw: Seq<char>)
    ensures
        normalized(raw).len() <= MAX_BYTES,
{
    lemma_utf8_len_bounds(raw);
    lemma_utf8_len_bounds(first_word(raw));
}

/// Normalizing is idempotent: the label of a label is that label.
///
/// This holds of every text but one whose first word is longer than
/// `MAX_BYTES` bytes and yet shorter than `KEPT_CHARS` characters: such a word
/// is kept whole, and the mark behind it makes it one character longer each
/// time.
pub proof fn lemma_normalized_is_stable(raw: Seq<char>)
    requires
        utf8_len(raw) > MAX_BYTES && utf8_len(first_word(raw)) > MAX_BYTES ==> first_word(
            raw,
        ).len() >= KEPT_CHARS,
    ensures
        normalized(normalized(raw)) == normalized(raw),
{
    let word = first_word(raw);
    let label = normalized(raw);
    if utf8_len(raw) > MAX_BYTES && utf8_len(word) > MAX_BYTES && utf8_len(label) > MAX_BYTES {
        lemma_word_len(raw);
        assert(label.len() == KEPT_CHARS + 1);
        assert forall|i: int| 0 <= i < label.len() implies !is_whitespace(#[trigger] label[i]) by {
            if i < KEPT_CHARS {
                assert(label[i] == raw[i]);
            }
        }
        lemma_word_len_is(label, label.len());
        assert(first_word(label) =~= label);
        assert(leading(label, KEPT_CHARS as nat) =~= leading(word, KEPT_CHARS as nat));
    }
}

/// One more character makes a text longer by the bytes of that character.
pub proof fn lemma_utf8_len_push(s: Seq<char>, c: char)
    ensures
        utf8_len(s.push(c)) == utf8_len(s) + utf8_len(seq![c]),
    decreases s.len(),
{
    if s.len() > 0 {
        lemma_utf8_len_push(s.drop_first(), c);
        assert(s.push(c).drop_first() =~= s.drop_first().push(c));
    } else {
        assert(s.push(c) =~= seq![c]);
    }
}

/// Where the first word is longer than `MAX_BYTES` bytes and yet shorter than
/// `KEPT_CHARS` characters, the label of the label is the label with one more
/// mark behind it.
pub proof fn lemma_normalized_grows(raw: Seq<char>)
    requires
        utf8_len(raw) > MAX_BYTES,
        utf8_len(first_word(raw)) > MAX_BYTES,
        first_word(raw).len() < KEPT_CHARS,
    ensures
        normalized(normalized(raw)) == normalized(raw).push(CUT_MARK),
{
    let word = first_word(raw);
    let label = normalized(raw);
    lemma_word_len(raw);
    lemma_utf8_len_push(word, CUT_MARK);
    assert forall|i: int| 0 <= i < label.len() implies !is_whitespace(#[trigger] label[i]) by {
        if i < word.len() {
            assert(label[i] == raw[i]);
        }
    }
    lemma_word_len_is(label, label.len());
    assert(first_word(label) =~= label);
}

/// Whether `c` has the Unicode property `White_Space`.
pub fn char_is_whitespace(c: char) -> (r: bool)
    ensures
        r == is_whitespace(c),
{
    let u: u32 = c as u32;
    (0x09 <= u && u <= 0x0D) || u == 0x20 || u == 0x85 || u == 0xA0 || u == 0x1680 || (0x2000 <= u
        && u <= 0x200A) || u == 0x2028 || u == 0x2029 || u == 0x202F || u == 0x205F || u == 0x3000
}

/// The number of characters of `raw` before its first white space.
fn count_word_chars(raw: &str) -> (k: usize)
    ensures
        k == word_len(raw@),
{
    let bytes = raw.as_bytes().len();
    let mut chars = raw.chars();
    let mut k: usize = 0;
    proof {
        lemma_utf8_len_bounds(raw@);
    }
    while k < bytes
        invariant_except_break
            chars.remaining() == raw@.skip(k as int),
        invariant
            k <= raw@.len() <= bytes,
            forall|i: int| 0 <= i < k ==> !is_whitespace(#[trigger] raw@[i]),
        ensures
            k <= raw@.len(),
            forall|i: int| 0 <= i < k ==> !is_whitespace(#[trigger] raw@[i]),
            k < raw@.len() ==> is_whitespace(raw@[k as int]),
        decreases bytes - k,
    {
        match chars.next() {
            Some(c) => {
                if char_is_whitespace(c) {
                    break ;
                }
                k += 1;
            },
            None => {
                break ;
            },
        }
    }
    proof {
        lemma_word_len_is(raw@, k as nat);
    }
    k
}

/// Computes the label that stands for `raw`.
pub fn normalize(raw: &str) -> (label: String)
    ensures
        label@ == normalized(raw@),
{
    if raw.as_bytes().len() <= MAX_BYTES {
        return raw.to_owned();
    }
    let k = count_word_chars(raw);
    proof {
        lemma_word_len(raw@);
    }
    let word = raw.substring_char(0, k);
    if word.as_bytes().len() <= MAX_BYTES {
        return word.to_owned();
    }
    let kept = if k <= KEPT_CHARS {
        word
    } else {
        word.substring_char(0, KEPT_CHARS)
    };
    let mut label = kept.to_owned();
    label.append("~");
    proof {
        reveal_strlit("~");
        assert("~"@ =~= seq![CUT_MARK]);
        assert(label@ =~= normalized(raw@));
    }
    label
}

/// Replaces `title` by its label.
pub fn truncate_window_title(title: &mut String)
    ensures
        final(title)@ == normalized(old(title)@),
{
    let label = normalize(title.as_str());
    *title = label;
}

} // verus!
