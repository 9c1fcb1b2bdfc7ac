//! The preparation under which directory strings are compared: mapping, case
//! folding, normalization, and spaces that do not count.

use vstd::prelude::*;

verus! {

/// Whether a code point is unassigned in the Unicode version that the preparation
/// is defined over.
pub uninterp spec fn unassigned(c: char) -> bool;

/// The case folding of a character, for use with normalization form KC.
pub uninterp spec fn case_fold(c: char) -> Seq<char>;

/// The normalization form KC of a string.
pub uninterp spec fn nfkc(s: Seq<char>) -> Seq<char>;

/// Whether a character is a combining mark.
pub uninterp spec fn is_mark(c: char) -> bool;

/// `stringprep::tables::unassigned_code_point`: a function of the character.
pub assume_specification[ stringprep::tables::unassigned_code_point ](c: char) -> (r: bool)
    ensures
        r == unassigned(c),
;

/// `stringprep::tables::private_use`: the three private use areas.
pub assume_specification[ stringprep::tables::private_use ](c: char) -> (r: bool)
    ensures
        r == is_private_use(c),
;

/// `stringprep::tables::non_character_code_point`: U+FDD0 to U+FDEF and the last
/// two code points of every plane.
pub assume_specification[ stringprep::tables::non_character_code_point ](c: char) -> (r: bool)
    ensures
        r == is_non_character(c),
;

/// `stringprep::tables::surrogate_code`: no character is a surrogate.
pub assume_specification[ stringprep::tables::surrogate_code ](c: char) -> (r: bool)
    ensures
        r == false,
;

/// `stringprep::tables::change_display_properties_or_deprecated`: two deprecated
/// tone marks and the directional formatting characters.
pub assume_specification[ stringprep::tables::change_display_properties_or_deprecated ](c: char) -> (r:
    bool)
    ensures
        r == changes_display(c),
;

/// `stringprep::tables::case_fold_for_nfkc`, its characters collected: a function
/// of the character.
#[verifier::external_body]
fn stringprep_case_fold(c: char) -> (r: Vec<char>)
    ensures
        r@ == case_fold(c),
{
    stringprep::tables::case_fold_for_nfkc(c).collect()
}

/// `unicode_normalization`'s `nfkc`, its characters collected: a function of the
/// string.
#[verifier::external_body]
fn unicode_nfkc(s: &Vec<char>) -> (r: Vec<char>)
    ensures
        r@ == nfkc(s@),
{
    unicode_normalization::UnicodeNormalization::nfkc(s.iter().copied()).collect()
}

/// `unicode_properties`'s `general_category_group`, compared with the group of
/// marks: a function of the character, and false of ASCII characters.
#[verifier::external_body]
fn unicode_is_mark(c: char) -> (r: bool)
    ensures
        r == is_mark(c),
        c <= '\u{7f}' ==> !r,
{
    unicode_properties::UnicodeGeneralCategory::general_category_group(c)
        == unicode_properties::GeneralCategoryGroup::Mark
}

/// Whether a character lies in a private use area.
pub open spec fn is_private_use(c: char) -> bool {
    ('\u{E000}' <= c <= '\u{F8FF}') || ('\u{F0000}' <= c <= '\u{FFFFD}') || ('\u{100000}' <= c
        <= '\u{10FFFD}')
}

/// Whether a code point is set aside as no character.
pub open spec fn is_non_character(c: char) -> bool {
    ('\u{FDD0}' <= c <= '\u{FDEF}') || c as u32 % 0x10000 >= 0xfffe
}

/// Whether a character changes how text is displayed, or is deprecated.
pub open spec fn changes_display(c: char) -> bool {
    c == '\u{0340}' || c == '\u{0341}' || c == '\u{200E}' || c == '\u{200F}' || ('\u{202A}' <= c
        <= '\u{202E}') || ('\u{206A}' <= c <= '\u{206F}')
}

/// Whether a character may not occur in a prepared string.
pub open spec fn is_prohibited(c: char) -> bool {
    unassigned(c) || changes_display(c) || is_private_use(c) || is_non_character(c) || c == '\u{FFFD}'
}

/// Whether a character is dropped before comparison: control and formatting
/// characters that carry no text.
pub open spec fn maps_to_nothing(c: char) -> bool {
    ('\u{0000}' <= c <= '\u{0008}') || ('\u{000e}' <= c <= '\u{001f}') || ('\u{007f}' <= c
        <= '\u{0084}') || ('\u{0086}' <= c <= '\u{009f}') || c == '\u{00ad}' || c == '\u{034f}' || c
        == '\u{06dd}' || c == '\u{070f}' || c == '\u{1806}' || ('\u{180b}' <= c <= '\u{180e}') || (
    '\u{200b}' <= c <= '\u{200f}') || ('\u{202a}' <= c <= '\u{202e}') || ('\u{2060}' <= c
        <= '\u{2063}') || ('\u{206a}' <= c <= '\u{206f}') || ('\u{fe00}' <= c <= '\u{fe0f}') || c
        == '\u{feff}' || ('\u{fff9}' <= c <= '\u{fffc}') || ('\u{1d173}' <= c <= '\u{1d17a}') || c
        == '\u{e0001}' || ('\u{e0020}' <= c <= '\u{e007f}')
}

/// Whether a character counts as a space.
pub open spec fn maps_to_space(c: char) -> bool {
    ('\u{0009}' <= c <= '\u{000d}') || c == '\u{0020}' || c == '\u{0085}' || c == '\u{00a0}' || c
        == '\u{1680}' || ('\u{2000}' <= c <= '\u{200a}') || ('\u{2028}' <= c <= '\u{2029}') || c
        == '\u{202f}' || c == '\u{205f}' || c == '\u{3000}'
}

/// What a character is mapped to, if to anything.
pub open spec fn mapping(c: char) -> Option<char> {
    if maps_to_nothing(c) {
        None
    } else if maps_to_space(c) {
        Some(' ')
    } else {
        Some(c)
    }
}

/// An upper-case ASCII letter in lower case, any other character as it is.
pub open spec fn ascii_lower(c: char) -> char {
    if 'A' <= c <= 'Z' {
        (c as u32 + 32) as char
    } else {
        c
    }
}

/// Whether every character is an ASCII one.
pub open spec fn all_ascii(s: Seq<char>) -> bool {
    forall|i: int| 0 <= i < s.len() ==> #[trigger] s[i] <= '\u{7f}'
}

/// A string mapped and lower-cased, for ASCII strings.
pub open spec fn ascii_folded(s: Seq<char>) -> Seq<char>
    decreases s.len(),
{
    if s.len() == 0 {
        Seq::empty()
    } else {
        match mapping(s.last()) {
            Some(c) => ascii_folded(s.drop_last()).push(ascii_lower(c)),
            None => ascii_folded(s.drop_last()),
        }
    }
}

/// A string mapped and case-folded.
pub open spec fn folded(s: Seq<char>) -> Seq<char>
    decreases s.len(),
{
    if s.len() == 0 {
        Seq::empty()
    } else {
        match mapping(s.last()) {
            Some(c) => folded(s.drop_last()) + case_fold(c),
            None => folded(s.drop_last()),
        }
    }
}

/// A string mapped, case-folded and normalized.
pub open spec fn normalization(s: Seq<char>) -> Seq<char> {
    if all_ascii(s) {
        ascii_folded(s)
    } else {
        nfkc(folded(s))
    }
}

/// Whether the character at `i` is a space that a mark does not turn into text.
pub open spec fn is_space_at(s: Seq<char>, i: int) -> bool {
    s[i] == ' ' && !(i + 1 < s.len() && s[i + 1] != ' ' && is_mark(s[i + 1]))
}

/// The text of the first `n` characters of `s`: without the spaces before the
/// first character that is none, and with every run of spaces after it, where a
/// character follows, as two spaces.
pub open spec fn text(s: Seq<char>, n: nat) -> Seq<char>
    decreases n,
{
    if n == 0 {
        Seq::empty()
    } else {
        let before = text(s, (n - 1) as nat);
        if is_space_at(s, n - 1) {
            before
        } else if before.len() > 0 && is_space_at(s, n - 2) {
            before.push(' ').push(' ').push(s[n - 1])
        } else {
            before.push(s[n - 1])
        }
    }
}

/// A string with one space before and after its text; two spaces where it has
/// none.
pub open spec fn spaced(s: Seq<char>) -> Seq<char> {
    let t = text(s, s.len());
    if t.len() == 0 {
        seq![' ', ' ']
    } else {
        seq![' '] + t + seq![' ']
    }
}

/// The form under which strings are compared.
pub open spec fn prepared(s: Seq<char>) -> Seq<char> {
    spaced(normalization(s))
}

/// Whether a string can be prepared: none of its characters is unassigned once
/// mapped, or prohibited once normalized.
pub open spec fn can_prepare(s: Seq<char>) -> bool {
    &&& all_ascii(s) || forall|i: int|
        0 <= i < s.len() ==> !(mapping(#[trigger] s[i]) matches Some(c) && unassigned(c))
    &&& forall|i: int|
        0 <= i < normalization(s).len() ==> !is_prohibited(#[trigger] normalization(s)[i])
}

/// A space at the end of a string does not count.
pub proof fn law_trailing_space_ignored(s: Seq<char>)
    requires
        all_ascii(s),
    ensures
        prepared(s.push(' ')) == prepared(s),
{
    let t = s.push(' ');
    assert(t.drop_last() =~= s);
    assert(all_ascii(t)) by {
        assert forall|i: int| 0 <= i < t.len() implies #[trigger] t[i] <= '\u{7f}' by {
            if i < s.len() {
                assert(t[i] == s[i]);
            }
        }
    }
    let a = ascii_folded(s);
    let b = ascii_folded(t);
    assert(b =~= a.push(' '));
    lemma_text_prefix(a, b, a.len());
}

/// Preparing an ASCII string does not depend on the case of its letters.
pub proof fn law_ascii_case_ignored(s: Seq<char>, t: Seq<char>)
    requires
        all_ascii(s),
        s.len() == t.len(),
        forall|i: int| 0 <= i < s.len() ==> ascii_lower(#[trigger] s[i]) == ascii_lower(t[i]),
    ensures
        prepared(s) == prepared(t),
{
    assert forall|i: int| 0 <= i < t.len() implies #[trigger] t[i] <= '\u{7f}' by {
        assert(ascii_lower(s[i]) == ascii_lower(t[i]));
    }
    lemma_folded_case(s, t);
}

proof fn lemma_folded_case(s: Seq<char>, t: Seq<char>)
    requires
        all_ascii(s),
        all_ascii(t),
        s.len() == t.len(),
        forall|i: int| 0 <= i < s.len() ==> ascii_lower(#[trigger] s[i]) == ascii_lower(t[i]),
    ensures
        ascii_folded(s) == ascii_folded(t),
    decreases s.len(),
{
    if s.len() > 0 {
        let n = s.len() - 1;
        assert(ascii_lower(s[n]) == ascii_lower(t[n]));
        assert forall|i: int| 0 <= i < n implies ascii_lower(#[trigger] s.drop_last()[i]) == ascii_lower(
            t.drop_last()[i],
        ) by {
            assert(s.drop_last()[i] == s[i]);
        }
        lemma_folded_case(s.drop_last(), t.drop_last());
    }
}

/// A space behind characters leaves the text of what comes before it as it is.
proof fn lemma_text_prefix(a: Seq<char>, b: Seq<char>, n: nat)
    requires
        n <= a.len(),
        b == a.push(' '),
    ensures
        text(b, n) == text(a, n),
    decreases n,
{
    if n > 0 {
        lemma_text_prefix(a, b, (n - 1) as nat);
        assert(b[n - 1] == a[n - 1]);
        if n >= 2 {
            assert(b[n - 2] == a[n - 2]);
        }
        if n < a.len() {
            assert(b[n as int] == a[n as int]);
        }
    }
}

/// The preparation of directory strings.
pub struct Profile;

impl Profile {
    /// The form under which `value` is compared.
    pub fn prepare(value: &Vec<char>) -> (r: Vec<char>)
        ensures
            r@ == prepared(value@),
    {
        let s = normalized(value);
        let mut out: Vec<char> = Vec::new();
        out.push(' ');
        let mut i: usize = 0;
        let ghost lead = seq![' '];
        assert(out@ =~= lead + text(s@, 0));
        while i < s.len()
            invariant
                i <= s.len(),
                lead == seq![' '],
                out@ == lead + text(s@, i as nat),
            decreases s.len() - i,
        {
            let ghost before = text(s@, i as nat);
            let c: char = s[i];
            if !is_space(&s, i) {
                if out.len() > 1 && is_space(&s, i - 1) {
                    out.push(' ');
                    out.push(' ');
                }
                out.push(c);
            }
            i = i + 1;
            assert(out@ =~= lead + text(s@, i as nat));
        }
        out.push(' ');
        proof {
            assert(out@ =~= lead + text(s@, s@.len()) + seq![' ']);
            if text(s@, s@.len()).len() == 0 {
                assert(out@ =~= seq![' ', ' ']);
            }
        }
        out
    }

    /// Whether `value` can be prepared.
    pub fn is_valid(value: &Vec<char>) -> (r: bool)
        ensures
            r == can_prepare(value@),
    {
        if !is_ascii(value) {
            let mut i: usize = 0;
            while i < value.len()
                invariant
                    i <= value.len(),
                    !all_ascii(value@),
                    forall|j: int|
                        0 <= j < i ==> !(mapping(#[trigger] value@[j]) matches Some(c) && unassigned(c)),
                decreases value.len() - i,
            {
                if let Some(c) = mapped(value[i]) {
                    if stringprep::tables::unassigned_code_point(c) {
                        assert(mapping(value@[i as int]) matches Some(c) && unassigned(c));
                        return false;
                    }
                }
                i = i + 1;
            }
        }
        let s = normalized(value);
        let mut i: usize = 0;
        while i < s.len()
            invariant
                i <= s.len(),
                s@ == normalization(value@),
                forall|j: int| 0 <= j < i ==> !is_prohibited(#[trigger] s@[j]),
            decreases s.len() - i,
        {
            if prohibited(s[i]) {
                assert(is_prohibited(normalization(value@)[i as int]));
                return false;
            }
            i = i + 1;
        }
        true
    }
}

fn is_space(s: &Vec<char>, i: usize) -> (r: bool)
    requires
        i < s.len(),
    ensures
        r == is_space_at(s@, i as int),
{
    if s[i] != ' ' {
        return false;
    }
    if i + 1 < s.len() {
        !unicode_is_mark(s[i + 1])
    } else {
        true
    }
}

fn is_ascii(s: &Vec<char>) -> (r: bool)
    ensures
        r == all_ascii(s@),
{
    let mut i: usize = 0;
    while i < s.len()
        invariant
            i <= s.len(),
            forall|j: int| 0 <= j < i ==> #[trigger] s@[j] <= '\u{7f}',
        decreases s.len() - i,
    {
        if s[i] > '\u{7f}' {
            assert(s@[i as int] > '\u{7f}');
            return false;
        }
        i = i + 1;
    }
    true
}

fn lower(c: char) -> (r: char)
    requires
        c <= '\u{7f}',
    ensures
        r == ascii_lower(c),
{
    if c >= 'A' && c <= 'Z' {
        let b: u8 = c as u8;
        (b + 32) as char
    } else {
        c
    }
}

fn normalized(value: &Vec<char>) -> (r: Vec<char>)
    ensures
        r@ == normalization(value@),
{
    let mut out: Vec<char> = Vec::new();
    let mut i: usize = 0;
    assert(value@.take(0) =~= Seq::empty());
    if is_ascii(value) {
        while i < value.len()
            invariant
                i <= value.len(),
                all_ascii(value@),
                out@ == ascii_folded(value@.take(i as int)),
            decreases value.len() - i,
        {
            assert(value@.take(i + 1).drop_last() =~= value@.take(i as int));
            assert(value@.take(i + 1).last() == value@[i as int]);
            if let Some(c) = mapped(value[i]) {
                out.push(lower(c));
            }
            i = i + 1;
        }
        assert(value@.take(i as int) =~= value@);
        out
    } else {
        while i < value.len()
            invariant
                i <= value.len(),
                out@ == folded(value@.take(i as int)),
            decreases value.len() - i,
        {
            assert(value@.take(i + 1).drop_last() =~= value@.take(i as int));
            assert(value@.take(i + 1).last() == value@[i as int]);
            if let Some(c) = mapped(value[i]) {
                let mut fold = stringprep_case_fold(c);
                out.append(&mut fold);
            }
            i = i + 1;
        }
        assert(value@.take(i as int) =~= value@);
        unicode_nfkc(&out)
    }
}

fn mapped(c: char) -> (r: Option<char>)
    ensures
        r == mapping(c),
{
    if mapped_to_nothing(c) {
        None
    } else if mapped_to_space(c) {
        Some(' ')
    } else {
        Some(c)
    }
}

fn mapped_to_nothing(c: char) -> (r: bool)
    ensures
        r == maps_to_nothing(c),
{
    (c <= '\u{0008}') || (c >= '\u{000e}' && c <= '\u{001f}') || (c >= '\u{007f}' && c <= '\u{0084}') || (c
        >= '\u{0086}' && c <= '\u{009f}') || c == '\u{00ad}' || c == '\u{034f}' || c == '\u{06dd}' || c
        == '\u{070f}' || c == '\u{1806}' || (c >= '\u{180b}' && c <= '\u{180e}') || (c >= '\u{200b}' && c
        <= '\u{200f}') || (c >= '\u{202a}' && c <= '\u{202e}') || (c >= '\u{2060}' && c <= '\u{2063}') || (c
        >= '\u{206a}' && c <= '\u{206f}') || (c >= '\u{fe00}' && c <= '\u{fe0f}') || c == '\u{feff}' || (c
        >= '\u{fff9}' && c <= '\u{fffc}') || (c >= '\u{1d173}' && c <= '\u{1d17a}') || c == '\u{e0001}' || (c
        >= '\u{e0020}' && c <= '\u{e007f}')
}

fn mapped_to_space(c: char) -> (r: bool)
    ensures
        r == maps_to_space(c),
{
    (c >= '\u{0009}' && c <= '\u{000d}') || c == '\u{0020}' || c == '\u{0085}' || c == '\u{00a0}' || c
        == '\u{1680}' || (c >= '\u{2000}' && c <= '\u{200a}') || (c >= '\u{2028}' && c <= '\u{2029}') || c
        == '\u{202f}' || c == '\u{205f}' || c == '\u{3000}'
}

fn prohibited(c: char) -> (r: bool)
    ensures
        r == is_prohibited(c),
{
    stringprep::tables::unassigned_code_point(c)
        || stringprep::tables::change_display_properties_or_deprecated(c)
        || stringprep::tables::private_use(c) || stringprep::tables::non_character_code_point(c)
        || stringprep::tables::surrogate_code(c) || c == '\u{fffd}'
}

} // verus!
