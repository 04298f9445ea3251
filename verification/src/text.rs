//! Searching and copying text, modelled as sequences of characters.

use vstd::prelude::*;

verus! {

/// `pattern` stands in `text` at position `at`.
pub open spec fn occurs_at(text: Seq<char>, pattern: Seq<char>, at: int) -> bool {
    &&& 0 <= at
    &&& at + pattern.len() <= text.len()
    &&& text.subrange(at, at + pattern.len()) == pattern
}

/// `pattern` stands somewhere in `text`.
pub open spec fn occurs(text: Seq<char>, pattern: Seq<char>) -> bool {
    exists|at: int| occurs_at(text, pattern, at)
}

/// `pattern` stands in `text` at `at` and nowhere before it.
pub open spec fn first_at(text: Seq<char>, pattern: Seq<char>, at: int) -> bool {
    &&& occurs_at(text, pattern, at)
    &&& forall|earlier: int| 0 <= earlier < at ==> !occurs_at(text, pattern, earlier)
}

/// Position of the leftmost occurrence of `pattern` in `text`, if there is one.
pub open spec fn first_index(text: Seq<char>, pattern: Seq<char>) -> Option<int> {
    if occurs(text, pattern) {
        Some(choose|at: int| first_at(text, pattern, at))
    } else {
        None
    }
}

/// What precedes the leftmost occurrence of `pattern`; all of `text` when
/// `pattern` does not occur.
pub open spec fn before_first(text: Seq<char>, pattern: Seq<char>) -> Seq<char> {
    match first_index(text, pattern) {
        Some(at) => text.subrange(0, at),
        None => text,
    }
}

/// What follows the leftmost occurrence of `pattern`; nothing when `pattern`
/// does not occur.
pub open spec fn after_first(text: Seq<char>, pattern: Seq<char>) -> Seq<char> {
    match first_index(text, pattern) {
        Some(at) => text.subrange(at + pattern.len(), text.len() as int),
        None => Seq::empty(),
    }
}

proof fn lemma_least_occurrence(text: Seq<char>, pattern: Seq<char>, at: int)
    requires
        occurs_at(text, pattern, at),
    ensures
        exists|least: int| first_at(text, pattern, least),
    decreases at,
{
    if exists|earlier: int| 0 <= earlier < at && occurs_at(text, pattern, earlier) {
        let earlier = choose|earlier: int| 0 <= earlier < at && occurs_at(text, pattern, earlier);
        lemma_least_occurrence(text, pattern, earlier);
    } else {
        assert(first_at(text, pattern, at));
    }
}

/// `first_index` names the leftmost occurrence, and is `None` exactly when
/// there is no occurrence at all.
pub proof fn lemma_first_index(text: Seq<char>, pattern: Seq<char>)
    ensures
        match first_index(text, pattern) {
            Some(at) => first_at(text, pattern, at),
            None => forall|at: int| !occurs_at(text, pattern, at),
        },
{
    if occurs(text, pattern) {
        let at = choose|at: int| occurs_at(text, pattern, at);
        lemma_least_occurrence(text, pattern, at);
    }
}

/// A leftmost occurrence is the one that `first_index` names.
pub proof fn lemma_first_at_is_first_index(text: Seq<char>, pattern: Seq<char>, at: int)
    requires
        first_at(text, pattern, at),
    ensures
        first_index(text, pattern) == Some(at),
{
    lemma_first_index(text, pattern);
    assert(occurs(text, pattern));
    let found = first_index(text, pattern)->0;
    assert(first_at(text, pattern, found));
    if found < at {
        assert(!occurs_at(text, pattern, found));
    } else if at < found {
        assert(!occurs_at(text, pattern, at));
    }
}

/// `text` with each backslash that `letter` follows replaced, together with
/// the letter, by `plain`; read from the left, no character used twice.
pub open spec fn unescaped_one(text: Seq<char>, letter: char, plain: char) -> Seq<char>
    decreases text.len(),
{
    if text.len() == 0 {
        text
    } else if text.len() >= 2 && text[0] == '\\' && text[1] == letter {
        seq![plain] + unescaped_one(text.skip(2), letter, plain)
    } else {
        seq![text[0]] + unescaped_one(text.skip(1), letter, plain)
    }
}

/// `text` with each written-out tab (a backslash and `t`) turned into a tab,
/// and then each written-out line feed (a backslash and `n`) into a line feed.
pub open spec fn unescaped(text: Seq<char>) -> Seq<char> {
    unescaped_one(unescaped_one(text, 't', '\t'), 'n', '\n')
}

/// The digit that writes `value`, for a value under ten.
pub open spec fn digit(value: nat) -> char {
    if value == 0 {
        '0'
    } else if value == 1 {
        '1'
    } else if value == 2 {
        '2'
    } else if value == 3 {
        '3'
    } else if value == 4 {
        '4'
    } else if value == 5 {
        '5'
    } else if value == 6 {
        '6'
    } else if value == 7 {
        '7'
    } else if value == 8 {
        '8'
    } else {
        '9'
    }
}

/// `value` written in base ten, without leading zeros.
pub open spec fn decimal(value: nat) -> Seq<char>
    decreases value,
{
    if value < 10 {
        seq![digit(value)]
    } else {
        decimal(value / 10).push(digit(value % 10))
    }
}

/// The characters of `s`, one by one.
pub fn chars_of(s: &str) -> (chars: Vec<char>)
    ensures
        chars@ == s@,
{
    let mut chars: Vec<char> = Vec::new();
    for c in it: s.chars()
        invariant
            chars@ == it.seq().take(it.index()),
            it.seq() == s@,
    {
        chars.push(c);
    }
    chars
}

/// `String::push` of the standard library. Nothing is proved of it; the
/// contract claims what its documentation says: the string afterwards is the
/// string before with `ch` added at its end.
pub assume_specification[ String::push ](s: &mut String, ch: char)
    ensures
        final(s)@ == old(s)@.push(ch),
;

/// The string made of `chars`, in order.
pub fn string_of(chars: &Vec<char>) -> (s: String)
    ensures
        s@ == chars@,
{
    let mut s = String::new();
    let mut i: usize = 0;
    while i < chars.len()
        invariant
            i <= chars.len(),
            s@ == chars@.take(i as int),
        decreases chars.len() - i,
    {
        s.push(chars[i]);
        i += 1;
    }
    s
}

/// Whether `pattern` stands in `text` at `at`.
fn matches_at(text: &Vec<char>, pattern: &Vec<char>, at: usize) -> (same: bool)
    requires
        at + pattern.len() <= text.len(),
    ensures
        same == occurs_at(text@, pattern@, at as int),
{
    let mut k: usize = 0;
    while k < pattern.len()
        invariant
            k <= pattern.len(),
            at + pattern.len() <= text.len(),
            forall|j: int| 0 <= j < k ==> text@[at + j] == pattern@[j],
        decreases pattern.len() - k,
    {
        if text[at + k] != pattern[k] {
            assert(text@.subrange(at as int, at + pattern.len())[k as int] != pattern@[k as int]);
            return false;
        }
        k += 1;
    }
    assert(text@.subrange(at as int, at + pattern.len()) =~= pattern@);
    true
}

/// Position of the leftmost occurrence of `pattern` in `text`.
pub fn find_first(text: &Vec<char>, pattern: &Vec<char>) -> (found: Option<usize>)
    ensures
        match found {
            Some(at) => first_index(text@, pattern@) == Some(at as int) && at + pattern.len()
                <= text.len(),
            None => first_index(text@, pattern@).is_none(),
        },
{
    if pattern.len() > text.len() {
        return None;
    }
    let last: usize = text.len() - pattern.len();
    let mut at: usize = 0;
    loop
        invariant
            at <= last,
            last + pattern.len() == text.len(),
            forall|earlier: int| 0 <= earlier < at ==> !occurs_at(text@, pattern@, earlier),
        decreases last - at,
    {
        if matches_at(text, pattern, at) {
            proof {
                lemma_first_at_is_first_index(text@, pattern@, at as int);
            }
            return Some(at);
        }
        if at == last {
            return None;
        }
        at += 1;
    }
}

/// A copy of a list of strings.
pub fn copy_texts(texts: &Vec<String>) -> (copy: Vec<String>)
    ensures
        copy@ == texts@,
{
    let mut copy: Vec<String> = Vec::new();
    let mut at: usize = 0;
    while at < texts.len()
        invariant
            at <= texts.len(),
            copy@ == texts@.take(at as int),
        decreases texts.len() - at,
    {
        copy.push(texts[at].clone());
        assert(copy@ =~= texts@.take(at + 1));
        at += 1;
    }
    assert(texts@.take(at as int) =~= texts@);
    copy
}

fn digit_char(value: usize) -> (c: char)
    requires
        value < 10,
    ensures
        c == digit(value as nat),
{
    if value == 0 {
        '0'
    } else if value == 1 {
        '1'
    } else if value == 2 {
        '2'
    } else if value == 3 {
        '3'
    } else if value == 4 {
        '4'
    } else if value == 5 {
        '5'
    } else if value == 6 {
        '6'
    } else if value == 7 {
        '7'
    } else if value == 8 {
        '8'
    } else {
        '9'
    }
}

/// `value` written in base ten.
pub fn decimal_text(value: usize) -> (text: String)
    ensures
        text@ == decimal(value as nat),
    decreases value,
{
    if value < 10 {
        let mut text = String::new();
        text.push(digit_char(value));
        assert(text@ =~= seq![digit(value as nat)]);
        text
    } else {
        let mut text = decimal_text(value / 10);
        text.push(digit_char(value % 10));
        text
    }
}

fn unescape_one(text: &Vec<char>, letter: char, plain: char) -> (plainer: Vec<char>)
    ensures
        plainer@ == unescaped_one(text@, letter, plain),
{
    let mut plainer: Vec<char> = Vec::new();
    let mut at: usize = 0;
    assert(text@.skip(0) =~= text@);
    assert(plainer@ + unescaped_one(text@, letter, plain) =~= unescaped_one(text@, letter, plain));
    while at < text.len()
        invariant
            at <= text.len(),
            plainer@ + unescaped_one(text@.skip(at as int), letter, plain) == unescaped_one(
                text@,
                letter,
                plain,
            ),
        decreases text.len() - at,
    {
        let ghost rest = text@.skip(at as int);
        if text[at] == '\\' && at + 1 < text.len() && text[at + 1] == letter {
            assert(rest.skip(2) =~= text@.skip(at + 2));
            assert(plainer@.push(plain) + unescaped_one(rest.skip(2), letter, plain) =~= plainer@
                + (seq![plain] + unescaped_one(rest.skip(2), letter, plain)));
            plainer.push(plain);
            at += 2;
        } else {
            assert(rest.skip(1) =~= text@.skip(at + 1));
            assert(plainer@.push(rest[0]) + unescaped_one(rest.skip(1), letter, plain) =~= plainer@
                + (seq![rest[0]] + unescaped_one(rest.skip(1), letter, plain)));
            plainer.push(text[at]);
            at += 1;
        }
    }
    assert(plainer@ + Seq::<char>::empty() =~= plainer@);
    plainer
}

/// Turns the tabs and line feeds that `text` holds written out, as a
/// backslash and a letter, into the characters they stand for.
pub fn unescape(text: &str) -> (plain: String)
    ensures
        plain@ == unescaped(text@),
{
    let chars = chars_of(text);
    let tabs = unescape_one(&chars, 't', '\t');
    let feeds = unescape_one(&tabs, 'n', '\n');
    string_of(&feeds)
}

} // verus!
