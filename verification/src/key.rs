//! The anatomy of a key: colon-separated segments, and the marker of keys
//! that another system manages.
//!
//! A key is managed when its first segment is the reserved namespace and its
//! last segment is not an unsigned integer. A key without a colon is one
//! segment, which is its first and its last: the namespace alone is managed.

use vstd::prelude::*;

verus! {

/// The character that separates the segments of a key.
pub const SEPARATOR: char = ':';

/// The namespace of the queueing system whose keys are left alone: `bull`.
pub open spec fn managed_namespace() -> Seq<char> {
    seq!['b', 'u', 'l', 'l']
}

/// Whether `c` is one of the ten decimal digits.
pub open spec fn is_digit(c: char) -> bool {
    '0' <= c && c <= '9'
}

/// The number that the decimal digit `c` stands for.
pub open spec fn digit_value(c: char) -> nat {
    (c as u32 - '0' as u32) as nat
}

/// Whether every character of `text` is a decimal digit.
pub open spec fn all_digits(text: Seq<char>) -> bool {
    forall|i: int| 0 <= i < text.len() ==> is_digit(#[trigger] text[i])
}

/// The number written by a run of decimal digits, most significant first.
pub open spec fn decimal_value(digits: Seq<char>) -> nat
    decreases digits.len(),
{
    if digits.len() == 0 {
        0
    } else {
        10 * decimal_value(digits.drop_last()) + digit_value(digits.last())
    }
}

/// `text` without the one plus sign that may lead it.
pub open spec fn unsigned_digits(text: Seq<char>) -> Seq<char> {
    if text.len() > 0 && text[0] == '+' {
        text.drop_first()
    } else {
        text
    }
}

/// Whether `text` writes an unsigned integer of machine word size: an
/// optional plus sign, then at least one decimal digit and nothing else, the
/// number being at most `usize::MAX`. Leading zeros are accepted.
pub open spec fn is_unsigned_integer(text: Seq<char>) -> bool {
    let digits = unsigned_digits(text);
    &&& digits.len() > 0
    &&& all_digits(digits)
    &&& decimal_value(digits) <= usize::MAX
}

/// The part of `key` before its first separator; the whole key when it has
/// none.
pub open spec fn first_segment(key: Seq<char>) -> Seq<char> {
    match key.index_of_first(SEPARATOR) {
        Some(at) => key.take(at),
        None => key,
    }
}

/// The part of `key` after its last separator; the whole key when it has
/// none.
pub open spec fn last_segment(key: Seq<char>) -> Seq<char> {
    match key.index_of_last(SEPARATOR) {
        Some(at) => key.skip(at + 1),
        None => key,
    }
}

/// Whether `key` belongs to the managed namespace: its first segment is the
/// namespace, and its last segment is not an unsigned integer.
pub open spec fn is_managed(key: Seq<char>) -> bool {
    &&& first_segment(key) == managed_namespace()
    &&& !is_unsigned_integer(last_segment(key))
}

/// The namespace is no unsigned integer, so the key that is the namespace
/// alone is managed.
pub proof fn lemma_namespace_alone_is_managed()
    ensures
        is_managed(managed_namespace()),
{
    let key = managed_namespace();
    key.index_of_first_ensures(SEPARATOR);
    key.index_of_last_ensures(SEPARATOR);
    assert(!is_digit(unsigned_digits(key)[0]));
}

/// Appending a digit to a run of digits multiplies its number by ten and adds
/// the digit.
proof fn lemma_decimal_value_push(digits: Seq<char>, c: char)
    ensures
        decimal_value(digits.push(c)) == 10 * decimal_value(digits) + digit_value(c),
{
    assert(digits.push(c).drop_last() =~= digits);
}

/// What reading a text from left to right has found out about it as an
/// unsigned integer.
struct Numeral {
    /// Nothing has been read yet.
    empty: bool,
    /// No character other than a leading plus sign and digits has been read.
    clean: bool,
    /// At least one character after the optional plus sign has been read.
    any: bool,
    /// The number of the digits read, or none once it exceeds `usize::MAX`.
    value: Option<usize>,
}

impl Numeral {
    /// Whether this is the reading of `text`.
    spec fn reads(self, text: Seq<char>) -> bool {
        let digits = unsigned_digits(text);
        &&& self.empty == (text.len() == 0)
        &&& self.any == (digits.len() > 0)
        &&& self.clean == all_digits(digits)
        &&& self.clean ==> match self.value {
            Some(v) => v == decimal_value(digits),
            None => decimal_value(digits) > usize::MAX,
        }
    }

    fn start() -> (r: Numeral)
        ensures
            r.reads(Seq::empty()),
    {
        Numeral { empty: true, clean: true, any: false, value: Some(0) }
    }

    fn feed(self, c: char, Ghost(text): Ghost<Seq<char>>) -> (r: Numeral)
        requires
            self.reads(text),
        ensures
            r.reads(text.push(c)),
    {
        let ghost digits = unsigned_digits(text);
        let ghost longer = unsigned_digits(text.push(c));
        if self.empty && c == '+' {
            return Numeral { empty: false, clean: true, any: false, value: Some(0) };
        }
        assert(longer =~= digits.push(c));
        if !self.clean || !(c >= '0' && c <= '9') {
            assert(!all_digits(longer)) by {
                if all_digits(longer) {
                    assert(is_digit(longer[digits.len() as int]));
                    assert forall|i: int| 0 <= i < digits.len() implies is_digit(
                        #[trigger] digits[i],
                    ) by {
                        assert(longer[i] == digits[i]);
                    }
                }
            }
            return Numeral { empty: false, clean: false, any: true, value: None };
        }
        assert(all_digits(longer));
        proof {
            lemma_decimal_value_push(digits, c);
        }
        let d: usize = (c as u32 - '0' as u32) as usize;
        let value = match self.value {
            None => None,
            Some(v) => if v > (usize::MAX - d) / 10 {
                None
            } else {
                Some(v * 10 + d)
            },
        };
        Numeral { empty: false, clean: true, any: true, value }
    }

    fn accepted(&self, Ghost(text): Ghost<Seq<char>>) -> (b: bool)
        requires
            self.reads(text),
        ensures
            b == is_unsigned_integer(text),
    {
        self.any && self.clean && self.value.is_some()
    }
}

/// Whether `text` writes an unsigned integer of machine word size.
pub fn parses_as_unsigned(text: &str) -> (accepted: bool)
    ensures
        accepted == is_unsigned_integer(text@),
{
    let mut numeral = Numeral::start();
    for c in it: text.chars()
        invariant
            it.seq() == text@,
            numeral.reads(text@.take(it.index())),
    {
        let ghost read = text@.take(it.index());
        numeral = numeral.feed(c, Ghost(read));
        assert(read.push(c) =~= text@.take(it.index() + 1));
    }
    assert(text@.take(text@.len() as int) =~= text@);
    numeral.accepted(Ghost(text@))
}

/// What reading a text from left to right has found out about it as the
/// managed namespace.
struct Namespace {
    /// The text read so far is the start of the namespace.
    fits: bool,
    /// How many characters have been read, while they fit.
    matched: usize,
}

impl Namespace {
    /// Whether this is the reading of `text`.
    spec fn reads(self, text: Seq<char>) -> bool {
        &&& self.fits == text.is_prefix_of(managed_namespace())
        &&& self.fits ==> self.matched == text.len()
    }

    fn start() -> (r: Namespace)
        ensures
            r.reads(Seq::empty()),
    {
        Namespace { fits: true, matched: 0 }
    }

    fn feed(self, c: char, Ghost(text): Ghost<Seq<char>>) -> (r: Namespace)
        requires
            self.reads(text),
        ensures
            r.reads(text.push(c)),
    {
        let ghost longer = text.push(c);
        if !self.fits || self.matched >= 4 {
            assert(!longer.is_prefix_of(managed_namespace())) by {
                if longer.is_prefix_of(managed_namespace()) {
                    assert(text =~= managed_namespace().subrange(0, text.len() as int));
                }
            }
            return Namespace { fits: false, matched: 0 };
        }
        let expected = if self.matched == 0 {
            'b'
        } else if self.matched == 1 {
            'u'
        } else {
            'l'
        };
        if c == expected {
            Namespace { fits: true, matched: self.matched + 1 }
        } else {
            assert(longer[text.len() as int] == c);
            Namespace { fits: false, matched: 0 }
        }
    }

    fn complete(&self, Ghost(text): Ghost<Seq<char>>) -> (b: bool)
        requires
            self.reads(text),
        ensures
            b == (text == managed_namespace()),
    {
        assert(managed_namespace().subrange(0, 4) =~= managed_namespace());
        self.fits && self.matched == 4
    }
}

/// Whether `key` belongs to the managed namespace.
pub fn is_managed_key(key: &str) -> (managed: bool)
    ensures
        managed == is_managed(key@),
{
    let mut namespace = Namespace::start();
    let mut numeral = Numeral::start();
    // Set at the first separator: whether the first segment is the namespace.
    let mut first: Option<bool> = None;
    let ghost mut first_at: int = 0;
    let ghost mut last_at: int = 0;
    for c in it: key.chars()
        invariant
            it.seq() == key@,
            match first {
                None => {
                    &&& forall|j: int| 0 <= j < it.index() ==> key@[j] != SEPARATOR
                    &&& namespace.reads(key@.take(it.index()))
                },
                Some(b) => {
                    &&& 0 <= first_at <= last_at < it.index()
                    &&& key@[first_at] == SEPARATOR
                    &&& key@[last_at] == SEPARATOR
                    &&& forall|j: int| 0 <= j < first_at ==> key@[j] != SEPARATOR
                    &&& forall|j: int| last_at < j < it.index() ==> key@[j] != SEPARATOR
                    &&& b == (key@.take(first_at) == managed_namespace())
                    &&& numeral.reads(key@.subrange(last_at + 1, it.index()))
                },
            },
    {
        let ghost at = it.index();
        if c == SEPARATOR {
            if first.is_none() {
                first = Some(namespace.complete(Ghost(key@.take(at))));
                proof {
                    first_at = at;
                }
            }
            numeral = Numeral::start();
            proof {
                last_at = at;
            }
        } else if first.is_none() {
            namespace = namespace.feed(c, Ghost(key@.take(at)));
        } else {
            numeral = numeral.feed(c, Ghost(key@.subrange(last_at + 1, at)));
            assert(key@.subrange(last_at + 1, at).push(c) =~= key@.subrange(last_at + 1, at + 1));
        }
    }
    proof {
        key@.index_of_first_ensures(SEPARATOR);
        key@.index_of_last_ensures(SEPARATOR);
    }
    match first {
        None => {
            proof {
                lemma_namespace_alone_is_managed();
                assert(key@.take(key@.len() as int) =~= key@);
            }
            namespace.complete(Ghost(key@))
        },
        Some(first_is_namespace) => first_is_namespace && !numeral.accepted(
            Ghost(key@.skip(last_at + 1)),
        ),
    }
}

} // verus!
