//! The `rename_all` case rules.

use vstd::prelude::*;
use vstd::string::{StrSliceExecFns, StringExecFns};

use crate::text;

verus! {

/// Calls `String::push`: appends one character to the end of the string.
pub assume_specification[ std::string::String::push ](s: &mut std::string::String, ch: char)
    ensures
        final(s)@ == old(s)@.push(ch),
;

/// Whether a character has Unicode's `Uppercase` property.
pub uninterp spec fn has_uppercase(c: char) -> bool;

/// Calls `char::is_uppercase`: whether the character has the `Uppercase`
/// property, which Unicode's tables list character by character.
#[verifier::external_body]
fn char_is_uppercase(c: char) -> (result: bool)
    ensures
        result == has_uppercase(c),
{
    c.is_uppercase()
}

/// A way to spell names.
#[derive(Clone, Copy, Debug, PartialEq, Eq, Structural)]
pub enum RenameRule {
    /// `lowercase`
    Lower,
    /// `UPPERCASE`
    Upper,
    /// `PascalCase`
    Pascal,
    /// `camelCase`
    Camel,
    /// `snake_case`
    Snake,
    /// `SCREAMING_SNAKE_CASE`
    ScreamingSnake,
    /// `kebab-case`
    Kebab,
    /// `SCREAMING-KEBAB-CASE`
    ScreamingKebab,
}

/// How a rule is written in an attribute.
pub open spec fn spelling(rule: RenameRule) -> Seq<char> {
    match rule {
        RenameRule::Lower => "lowercase"@,
        RenameRule::Upper => "UPPERCASE"@,
        RenameRule::Pascal => "PascalCase"@,
        RenameRule::Camel => "camelCase"@,
        RenameRule::Snake => "snake_case"@,
        RenameRule::ScreamingSnake => "SCREAMING_SNAKE_CASE"@,
        RenameRule::Kebab => "kebab-case"@,
        RenameRule::ScreamingKebab => "SCREAMING-KEBAB-CASE"@,
    }
}

/// The rule that is written this way, if any is.
pub open spec fn rule_named(s: Seq<char>) -> Option<RenameRule> {
    if s == "lowercase"@ {
        Some(RenameRule::Lower)
    } else if s == "UPPERCASE"@ {
        Some(RenameRule::Upper)
    } else if s == "PascalCase"@ {
        Some(RenameRule::Pascal)
    } else if s == "camelCase"@ {
        Some(RenameRule::Camel)
    } else if s == "snake_case"@ {
        Some(RenameRule::Snake)
    } else if s == "SCREAMING_SNAKE_CASE"@ {
        Some(RenameRule::ScreamingSnake)
    } else if s == "kebab-case"@ {
        Some(RenameRule::Kebab)
    } else if s == "SCREAMING-KEBAB-CASE"@ {
        Some(RenameRule::ScreamingKebab)
    } else {
        None
    }
}

/// A character with ASCII letters in upper case.
pub open spec fn upper(c: char) -> char {
    if 'a' <= c && c <= 'z' {
        (c as int - 32) as char
    } else {
        c
    }
}

/// A character with ASCII letters in lower case.
pub open spec fn lower(c: char) -> char {
    if 'A' <= c && c <= 'Z' {
        (c as int + 32) as char
    } else {
        c
    }
}

/// A name with every letter in upper case.
pub open spec fn upper_all(s: Seq<char>) -> Seq<char> {
    Seq::new(s.len(), |i: int| upper(s[i]))
}

/// A name with every letter in lower case.
pub open spec fn lower_all(s: Seq<char>) -> Seq<char> {
    Seq::new(s.len(), |i: int| lower(s[i]))
}

/// A name with hyphens in the place of underscores.
pub open spec fn hyphenated(s: Seq<char>) -> Seq<char> {
    Seq::new(
        s.len(),
        |i: int|
            if s[i] == '_' {
                '-'
            } else {
                s[i]
            },
    )
}

/// A name whose first letter is in lower case.
pub open spec fn uncapitalized(s: Seq<char>) -> Seq<char> {
    Seq::new(
        s.len(),
        |i: int|
            if i == 0 {
                lower(s[i])
            } else {
                s[i]
            },
    )
}

/// The first `n` characters of a field's name in Pascal case: underscores
/// vanish, and a character that comes first or follows one is capitalized.
pub open spec fn pascal(s: Seq<char>, n: nat) -> Seq<char>
    decreases n,
{
    if n == 0 || n > s.len() {
        seq![]
    } else {
        let before = pascal(s, (n - 1) as nat);
        let c = s[n - 1];
        if c == '_' {
            before
        } else if n == 1 || s[n - 2] == '_' {
            before.push(upper(c))
        } else {
            before.push(c)
        }
    }
}

/// The first `n` characters of a variant's name in snake case, given which of
/// its characters are capitals: an underscore comes before each capital but
/// the first character, and letters are in lower case.
pub open spec fn snake(s: Seq<char>, capitals: Seq<bool>, n: nat) -> Seq<char>
    decreases n,
{
    if n == 0 || n > s.len() {
        seq![]
    } else {
        let before = snake(s, capitals, (n - 1) as nat);
        if capitals[n - 1] && n > 1 {
            before.push('_').push(lower(s[n - 1]))
        } else {
            before.push(lower(s[n - 1]))
        }
    }
}

/// Whether a character starts a new word in a variant's name.
pub open spec fn is_capital(c: char) -> bool {
    if c <= '\x7f' {
        'A' <= c && c <= 'Z'
    } else {
        has_uppercase(c)
    }
}

/// Which characters start a new word.
pub open spec fn capitals(s: Seq<char>) -> Seq<bool> {
    Seq::new(s.len(), |i: int| is_capital(s[i]))
}

/// A field's name under a rule. Field names are taken to be in snake case.
pub open spec fn field_name(rule: RenameRule, s: Seq<char>) -> Seq<char> {
    match rule {
        RenameRule::Lower | RenameRule::Snake => s,
        RenameRule::Upper | RenameRule::ScreamingSnake => upper_all(s),
        RenameRule::Pascal => pascal(s, s.len()),
        RenameRule::Camel => uncapitalized(pascal(s, s.len())),
        RenameRule::Kebab => hyphenated(s),
        RenameRule::ScreamingKebab => hyphenated(upper_all(s)),
    }
}

/// A variant's name under a rule, given which of its characters are capitals.
/// Variant names are taken to be in Pascal case.
pub open spec fn variant_name(rule: RenameRule, s: Seq<char>, capitals: Seq<bool>) -> Seq<char> {
    match rule {
        RenameRule::Pascal => s,
        RenameRule::Lower => lower_all(s),
        RenameRule::Upper => upper_all(s),
        RenameRule::Camel => uncapitalized(s),
        RenameRule::Snake => snake(s, capitals, s.len()),
        RenameRule::ScreamingSnake => upper_all(snake(s, capitals, s.len())),
        RenameRule::Kebab => hyphenated(snake(s, capitals, s.len())),
        RenameRule::ScreamingKebab => hyphenated(upper_all(snake(s, capitals, s.len()))),
    }
}

fn to_upper(c: char) -> (result: char)
    ensures
        result == upper(c),
{
    if 'a' <= c && c <= 'z' {
        ((c as u8) - 32) as char
    } else {
        c
    }
}

fn to_lower(c: char) -> (result: char)
    ensures
        result == lower(c),
{
    if 'A' <= c && c <= 'Z' {
        ((c as u8) + 32) as char
    } else {
        c
    }
}

/// A name with every letter in upper case.
pub fn to_ascii_uppercase(s: &str) -> (result: String)
    ensures
        result@ == upper_all(s@),
{
    let mut out = String::new();
    let n = s.unicode_len();
    let mut i: usize = 0;
    while i < n
        invariant
            i <= n,
            n == s@.len(),
            out@.len() == i,
            forall|j: int| 0 <= j < i ==> #[trigger] out@[j] == upper(s@[j]),
        decreases n - i,
    {
        out.push(to_upper(s.get_char(i)));
        i += 1;
    }
    assert(out@ =~= upper_all(s@));
    out
}

/// A name with every letter in lower case.
pub fn to_ascii_lowercase(s: &str) -> (result: String)
    ensures
        result@ == lower_all(s@),
{
    let mut out = String::new();
    let n = s.unicode_len();
    let mut i: usize = 0;
    while i < n
        invariant
            i <= n,
            n == s@.len(),
            out@.len() == i,
            forall|j: int| 0 <= j < i ==> #[trigger] out@[j] == lower(s@[j]),
        decreases n - i,
    {
        out.push(to_lower(s.get_char(i)));
        i += 1;
    }
    assert(out@ =~= lower_all(s@));
    out
}

/// A name with hyphens in the place of underscores.
pub fn hyphenate(s: &str) -> (result: String)
    ensures
        result@ == hyphenated(s@),
{
    let mut out = String::new();
    let n = s.unicode_len();
    let mut i: usize = 0;
    while i < n
        invariant
            i <= n,
            n == s@.len(),
            out@.len() == i,
            forall|j: int| 0 <= j < i ==> #[trigger] out@[j] == hyphenated(s@)[j],
        decreases n - i,
    {
        let c = s.get_char(i);
        if c == '_' {
            out.push('-');
        } else {
            out.push(c);
        }
        i += 1;
    }
    assert(out@ =~= hyphenated(s@));
    out
}

/// A segment of a name with its first letter in upper case.
pub fn capitalize(segment: &str) -> (result: String)
    ensures
        result@.len() == segment@.len(),
        forall|i: int|
            0 <= i < segment@.len() ==> #[trigger] result@[i] == if i == 0 {
                upper(segment@[i])
            } else {
                segment@[i]
            },
{
    let mut out = String::new();
    let n = segment.unicode_len();
    if n > 0 {
        out.push(to_upper(segment.get_char(0)));
        out.append(segment.substring_char(1, n));
    }
    out
}

/// A name with its first letter in lower case.
pub fn uncapitalize_first(s: &str) -> (result: String)
    ensures
        result@ == uncapitalized(s@),
{
    let mut out = String::new();
    let n = s.unicode_len();
    if n > 0 {
        out.push(to_lower(s.get_char(0)));
        out.append(s.substring_char(1, n));
    }
    assert(out@ =~= uncapitalized(s@));
    out
}

/// A field's name in Pascal case: each segment between underscores,
/// capitalized.
pub fn snake_to_pascal(field: &str) -> (result: String)
    ensures
        result@ == pascal(field@, field@.len()),
{
    let mut out = String::new();
    let n = field.unicode_len();
    let mut start: usize = 0;
    let mut i: usize = 0;
    assert(out@ =~= pascal(field@, 0));
    while i < n
        invariant
            start <= i <= n,
            n == field@.len(),
            start == 0 || field@[start - 1] == '_',
            forall|j: int| start <= j < i ==> field@[j] != '_',
            out@ == pascal(field@, start as nat),
        decreases n - i,
    {
        if field.get_char(i) == '_' {
            let segment = capitalize(field.substring_char(start, i));
            proof {
                lemma_segment(field@, start as nat, i as nat, segment@);
            }
            out.append(segment.as_str());
            start = i + 1;
        }
        i += 1;
    }
    let segment = capitalize(field.substring_char(start, n));
    proof {
        lemma_segment(field@, start as nat, n as nat, segment@);
    }
    out.append(segment.as_str());
    out
}

/// A capitalized segment is what Pascal case has for it.
proof fn lemma_segment(s: Seq<char>, start: nat, end: nat, segment: Seq<char>)
    requires
        start <= end <= s.len(),
        start == 0 || s[start - 1] == '_',
        forall|j: int| start <= j < end ==> s[j] != '_',
        segment.len() == end - start,
        forall|i: int|
            0 <= i < segment.len() ==> #[trigger] segment[i] == if i == 0 {
                upper(s[start as int])
            } else {
                s[start + i]
            },
    ensures
        pascal(s, end) == pascal(s, start) + segment,
    decreases end,
{
    if start == end {
        assert(pascal(s, start) + segment =~= pascal(s, start));
    } else {
        let shorter = segment.drop_last();
        lemma_segment(s, start, (end - 1) as nat, shorter);
        assert(s[end - 1] != '_');
        assert(pascal(s, end) =~= pascal(s, start) + segment) by {
            assert(segment =~= shorter.push(segment[end - start - 1]));
            if end - 1 > start {
                assert(s[end - 2] != '_');
            }
        }
    }
}

/// A variant's name in snake case, given which of its characters are capitals.
pub fn snake_case(variant: &str, capitals: &Vec<bool>) -> (result: String)
    requires
        capitals@.len() == variant@.len(),
    ensures
        result@ == snake(variant@, capitals@, variant@.len()),
{
    let mut out = String::new();
    let n = variant.unicode_len();
    let mut i: usize = 0;
    assert(out@ =~= snake(variant@, capitals@, 0));
    while i < n
        invariant
            i <= n,
            n == variant@.len(),
            capitals@.len() == n,
            out@ == snake(variant@, capitals@, i as nat),
        decreases n - i,
    {
        if capitals[i] && i > 0 {
            out.push('_');
        }
        out.push(to_lower(variant.get_char(i)));
        i += 1;
    }
    out
}

/// Which characters of a name start a new word.
pub fn find_capitals(variant: &str) -> (result: Vec<bool>)
    ensures
        result@ == capitals(variant@),
{
    let mut out: Vec<bool> = Vec::new();
    let n = variant.unicode_len();
    let mut i: usize = 0;
    while i < n
        invariant
            i <= n,
            n == variant@.len(),
            out@.len() == i,
            forall|j: int| 0 <= j < i ==> #[trigger] out@[j] == is_capital(variant@[j]),
        decreases n - i,
    {
        let c = variant.get_char(i);
        if c <= '\x7f' {
            out.push('A' <= c && c <= 'Z');
        } else {
            out.push(char_is_uppercase(c));
        }
        i += 1;
    }
    assert(out@ =~= capitals(variant@));
    out
}

/// A variant's name in snake case.
pub fn pascal_to_snake(variant: &str) -> (result: String)
    ensures
        result@ == snake(variant@, capitals(variant@), variant@.len()),
{
    let found = find_capitals(variant);
    snake_case(variant, &found)
}

impl RenameRule {
    /// The rule that is written this way, if any is.
    pub fn from_str(s: &str) -> (result: Option<Self>)
        ensures
            result == rule_named(s@),
    {
        if text::same(s, "lowercase") {
            Some(RenameRule::Lower)
        } else if text::same(s, "UPPERCASE") {
            Some(RenameRule::Upper)
        } else if text::same(s, "PascalCase") {
            Some(RenameRule::Pascal)
        } else if text::same(s, "camelCase") {
            Some(RenameRule::Camel)
        } else if text::same(s, "snake_case") {
            Some(RenameRule::Snake)
        } else if text::same(s, "SCREAMING_SNAKE_CASE") {
            Some(RenameRule::ScreamingSnake)
        } else if text::same(s, "kebab-case") {
            Some(RenameRule::Kebab)
        } else if text::same(s, "SCREAMING-KEBAB-CASE") {
            Some(RenameRule::ScreamingKebab)
        } else {
            None
        }
    }

    /// Applies the rule to a field's name, assumed to be in snake case.
    pub fn apply_to_field(self, field: &str) -> (result: String)
        ensures
            result@ == field_name(self, field@),
    {
        match self {
            RenameRule::Lower | RenameRule::Snake => field.to_owned(),
            RenameRule::Upper | RenameRule::ScreamingSnake => to_ascii_uppercase(field),
            RenameRule::Pascal => snake_to_pascal(field),
            RenameRule::Camel => uncapitalize_first(snake_to_pascal(field).as_str()),
            RenameRule::Kebab => hyphenate(field),
            RenameRule::ScreamingKebab => hyphenate(to_ascii_uppercase(field).as_str()),
        }
    }

    /// Applies the rule to a variant's name, given which of its characters are
    /// capitals.
    pub fn apply_with(self, variant: &str, capitals: &Vec<bool>) -> (result: String)
        requires
            capitals@.len() == variant@.len(),
        ensures
            result@ == variant_name(self, variant@, capitals@),
    {
        match self {
            RenameRule::Pascal => variant.to_owned(),
            RenameRule::Lower => to_ascii_lowercase(variant),
            RenameRule::Upper => to_ascii_uppercase(variant),
            RenameRule::Camel => uncapitalize_first(variant),
            RenameRule::Snake => snake_case(variant, capitals),
            RenameRule::ScreamingSnake => to_ascii_uppercase(
                snake_case(variant, capitals).as_str(),
            ),
            RenameRule::Kebab => hyphenate(snake_case(variant, capitals).as_str()),
            RenameRule::ScreamingKebab => hyphenate(
                to_ascii_uppercase(snake_case(variant, capitals).as_str()).as_str(),
            ),
        }
    }

    /// Applies the rule to a variant's name, assumed to be in Pascal case.
    pub fn apply_to_variant(self, variant: &str) -> (result: String)
        ensures
            result@ == variant_name(self, variant@, capitals(variant@)),
    {
        let found = find_capitals(variant);
        self.apply_with(variant, &found)
    }
}

/// Case is a matter of the letters A to Z alone: each has one counterpart, and
/// everything else is left as it is.
pub proof fn lemma_case(c: char)
    ensures
        'A' <= c <= 'Z' ==> 'a' <= lower(c) <= 'z' && lower(c) as int - 'a' as int == c as int - 'A' as int && upper(lower(c))
            == c,
        !('A' <= c <= 'Z') ==> lower(c) == c,
        'a' <= c <= 'z' ==> 'A' <= upper(c) <= 'Z' && upper(c) as int - 'A' as int == c as int - 'a' as int && lower(upper(c))
            == c,
        !('a' <= c <= 'z') ==> upper(c) == c,
        upper(lower(c)) == upper(c),
        lower(upper(c)) == lower(c),
{
}

/// How many new words start in a name up to character `i`, the first character
/// not counted.
pub open spec fn breaks(capitals: Seq<bool>, i: nat) -> nat
    decreases i,
{
    if i == 0 {
        0
    } else {
        breaks(capitals, (i - 1) as nat) + if capitals[i as int] {
            1nat
        } else {
            0
        }
    }
}

proof fn lemma_breaks_mono(capitals: Seq<bool>, i: nat, j: nat)
    requires
        i <= j,
    ensures
        breaks(capitals, i) <= breaks(capitals, j),
    decreases j,
{
    if i < j {
        lemma_breaks_mono(capitals, i, (j - 1) as nat);
    }
}

/// In snake case, every character stands in its place, in lower case, and every
/// capital but the first character has an underscore before it; there is
/// nothing else.
proof fn lemma_snake_places(s: Seq<char>, capitals: Seq<bool>, n: nat)
    requires
        n <= s.len() == capitals.len(),
    ensures
        n == 0 ==> snake(s, capitals, n).len() == 0,
        n > 0 ==> snake(s, capitals, n).len() == n + breaks(capitals, (n - 1) as nat),
        forall|i: nat|
            i < n ==> snake(s, capitals, n)[i + 0int + #[trigger] breaks(capitals, i)] == lower(
                s[i as int],
            ),
        forall|i: nat|
            0 < i < n && capitals[i as int] ==> snake(s, capitals, n)[i + #[trigger] breaks(
                capitals,
                i,
            ) - 1] == '_',
    decreases n,
{
    if n > 0 {
        let m = (n - 1) as nat;
        lemma_snake_places(s, capitals, m);
        let before = snake(s, capitals, m);
        let after = snake(s, capitals, n);
        assert forall|i: nat| i < n implies after[i + 0int + #[trigger] breaks(capitals, i)] == lower(
            s[i as int],
        ) && (0 < i && capitals[i as int] ==> after[i + breaks(capitals, i) - 1] == '_') by {
            if i < m {
                lemma_breaks_mono(capitals, i, (m - 1) as nat);
                assert(before[i + 0int + breaks(capitals, i)] == lower(s[i as int]));
            }
        }
    }
}

/// Whether a rule puts words apart.
pub open spec fn separator(rule: RenameRule) -> Option<char> {
    match rule {
        RenameRule::Snake | RenameRule::ScreamingSnake => Some('_'),
        RenameRule::Kebab | RenameRule::ScreamingKebab => Some('-'),
        _ => None,
    }
}

/// What becomes of the character in place `i` of a variant's name.
pub open spec fn variant_letter(rule: RenameRule, i: nat, c: char) -> char {
    match rule {
        RenameRule::Pascal => c,
        RenameRule::Camel => if i == 0 {
            lower(c)
        } else {
            c
        },
        RenameRule::Lower | RenameRule::Snake => lower(c),
        RenameRule::Upper | RenameRule::ScreamingSnake => upper(c),
        RenameRule::Kebab => if c == '_' {
            '-'
        } else {
            lower(c)
        },
        RenameRule::ScreamingKebab => if c == '_' {
            '-'
        } else {
            upper(c)
        },
    }
}

/// Under a rule that puts words apart, every character of a variant's name
/// appears in its order, in the case of the rule, and the separator stands
/// directly before each capital but the first character; there is nothing else.
/// Under another rule there are no separators.
pub proof fn lemma_variant_letters(rule: RenameRule, s: Seq<char>, capitals: Seq<bool>)
    requires
        capitals.len() == s.len(),
    ensures
        separator(rule) is None ==> {
            &&& variant_name(rule, s, capitals).len() == s.len()
            &&& forall|i: nat|
                i < s.len() ==> #[trigger] variant_name(rule, s, capitals)[i as int]
                    == variant_letter(rule, i, s[i as int])
        },
        separator(rule) matches Some(mark) ==> {
            let out = variant_name(rule, s, capitals);
            &&& s.len() == 0 ==> out.len() == 0
            &&& s.len() > 0 ==> out.len() == s.len() + breaks(capitals, (s.len() - 1) as nat)
            &&& forall|i: nat|
                i < s.len() ==> out[i + 0int + #[trigger] breaks(capitals, i)] == variant_letter(
                    rule,
                    i,
                    s[i as int],
                )
            &&& forall|i: nat|
                0 < i < s.len() && capitals[i as int] ==> out[i + #[trigger] breaks(capitals, i)
                    - 1] == mark
        },
{
    if separator(rule) is Some {
        lemma_snake_places(s, capitals, s.len());
        let plain = snake(s, capitals, s.len());
        let out = variant_name(rule, s, capitals);
        assert forall|i: nat| i < s.len() implies out[i + 0int + #[trigger] breaks(capitals, i)]
            == variant_letter(rule, i, s[i as int]) && (0 < i && capitals[i as int] ==> out[i
            + breaks(capitals, i) - 1] == separator(rule)->0) by {
            lemma_breaks_mono(capitals, i, (s.len() - 1) as nat);
            lemma_case(s[i as int]);
            assert(plain[i + 0int + breaks(capitals, i)] == lower(s[i as int]));
        }
    }
}

/// How many underscores there are among the first `n` characters of a name.
pub open spec fn gaps(s: Seq<char>, n: nat) -> nat
    decreases n,
{
    if n == 0 || n > s.len() {
        0
    } else {
        gaps(s, (n - 1) as nat) + if s[n - 1] == '_' {
            1nat
        } else {
            0
        }
    }
}

proof fn lemma_gaps(s: Seq<char>, i: nat, n: nat)
    requires
        i <= n <= s.len(),
    ensures
        gaps(s, i) <= gaps(s, n) <= gaps(s, i) + (n - i),
        gaps(s, n) <= n,
    decreases n,
{
    if i < n {
        lemma_gaps(s, i, (n - 1) as nat);
    } else if n > 0 {
        lemma_gaps(s, (n - 1) as nat, (n - 1) as nat);
    }
}

/// Whether a character of a field's name is the first of a word.
pub open spec fn starts_word(s: Seq<char>, i: nat) -> bool {
    i == 0 || s[i - 1] == '_'
}

proof fn lemma_pascal_places(s: Seq<char>, n: nat)
    requires
        n <= s.len(),
    ensures
        pascal(s, n).len() == n - gaps(s, n),
        forall|i: nat|
            i < n && s[i as int] != '_' ==> pascal(s, n)[i - #[trigger] gaps(s, i)]
                == if starts_word(s, i) {
                upper(s[i as int])
            } else {
                s[i as int]
            },
    decreases n,
{
    if n > 0 {
        let m = (n - 1) as nat;
        lemma_pascal_places(s, m);
        lemma_gaps(s, m, n);
        assert forall|i: nat| i < n && s[i as int] != '_' implies pascal(s, n)[i
            - #[trigger] gaps(s, i)] == if starts_word(s, i) {
            upper(s[i as int])
        } else {
            s[i as int]
        } by {
            lemma_gaps(s, i, i);
            if i < m {
                lemma_gaps(s, i + 1, m);
                assert(gaps(s, i + 1) == gaps(s, i));
                assert(pascal(s, m)[i - gaps(s, i)] == if starts_word(s, i) {
                    upper(s[i as int])
                } else {
                    s[i as int]
                });
            }
        }
    }
}

/// What becomes of the character in place `i` of a field's name.
pub open spec fn field_letter(rule: RenameRule, s: Seq<char>, i: nat) -> char {
    let c = s[i as int];
    match rule {
        RenameRule::Lower | RenameRule::Snake => c,
        RenameRule::Upper | RenameRule::ScreamingSnake => upper(c),
        RenameRule::Kebab => if c == '_' {
            '-'
        } else {
            c
        },
        RenameRule::ScreamingKebab => if c == '_' {
            '-'
        } else {
            upper(c)
        },
        RenameRule::Pascal => if starts_word(s, i) {
            upper(c)
        } else {
            c
        },
        RenameRule::Camel => if gaps(s, i) == i {
            lower(c)
        } else if starts_word(s, i) {
            upper(c)
        } else {
            c
        },
    }
}

/// Every character of a field's name appears in its order, in the case of the
/// rule; the rules that run words together leave the underscores out, and no
/// rule leaves out or adds anything else.
pub proof fn lemma_field_letters(rule: RenameRule, s: Seq<char>)
    ensures
        rule is Pascal || rule is Camel ==> {
            &&& field_name(rule, s).len() == s.len() - gaps(s, s.len())
            &&& forall|i: nat|
                i < s.len() && s[i as int] != '_' ==> field_name(rule, s)[i - #[trigger] gaps(s, i)]
                    == field_letter(rule, s, i)
        },
        !(rule is Pascal || rule is Camel) ==> {
            &&& field_name(rule, s).len() == s.len()
            &&& forall|i: nat|
                i < s.len() ==> #[trigger] field_name(rule, s)[i as int] == field_letter(rule, s, i)
        },
{
    lemma_pascal_places(s, s.len());
    if rule is Pascal || rule is Camel {
        assert forall|i: nat| i < s.len() && s[i as int] != '_' implies field_name(rule, s)[i
            - #[trigger] gaps(s, i)] == field_letter(rule, s, i) by {
            lemma_gaps(s, i, i);
            lemma_gaps(s, i + 1, s.len());
            lemma_case(s[i as int]);
            if gaps(s, i) == i && i > 0 {
                lemma_gaps(s, 0, (i - 1) as nat);
                assert(s[i - 1] == '_');
            }
        }
    }
}

proof fn lemma_pascal_prefix(a: Seq<char>, b: Seq<char>, n: nat)
    requires
        n <= a.len(),
        n <= b.len(),
        forall|i: int| 0 <= i < n ==> a[i] == b[i],
    ensures
        pascal(a, n) == pascal(b, n),
    decreases n,
{
    if n > 0 {
        lemma_pascal_prefix(a, b, (n - 1) as nat);
    }
}

proof fn lemma_snake_pascal(s: Seq<char>, capitals: Seq<bool>, n: nat)
    requires
        n <= s.len() == capitals.len(),
        forall|i: int| 0 <= i < s.len() ==> s[i] != '_',
        forall|i: int| 0 <= i < s.len() ==> capitals[i] == ('A' <= #[trigger] s[i] <= 'Z'),
        s.len() > 0 ==> capitals[0],
    ensures
        ({
            let t = snake(s, capitals, n);
            &&& pascal(t, t.len()) == s.take(n as int)
            &&& n > 0 ==> t.len() > 0 && t.last() != '_'
        }),
    decreases n,
{
    if n == 0 {
        assert(s.take(0) =~= seq![]);
    } else {
        let m = (n - 1) as nat;
        lemma_snake_pascal(s, capitals, m);
        let before = snake(s, capitals, m);
        let c = s[m as int];
        lemma_case(c);
        let after = snake(s, capitals, n);
        assert(s.take(n as int) =~= s.take(m as int).push(c));
        if capitals[m as int] && n > 1 {
            let mid = before.push('_');
            assert(after == mid.push(lower(c)));
            lemma_pascal_prefix(after, before, before.len());
            assert(after[before.len() as int] == '_');
            assert(pascal(after, before.len() + 1) == pascal(before, before.len()));
            assert(after[before.len() + 1int] == lower(c));
            assert(pascal(after, before.len() + 2) == pascal(before, before.len()).push(
                upper(lower(c)),
            ));
        } else {
            assert(after == before.push(lower(c)));
            lemma_pascal_prefix(after, before, before.len());
            assert(after[before.len() as int] == lower(c));
        }
    }
}

/// Snake case and Pascal case undo each other: a variant's name of ASCII words
/// comes back from the snake case that it is renamed to.
pub proof fn lemma_snake_undone(s: Seq<char>)
    requires
        s.len() > 0,
        'A' <= s[0] <= 'Z',
        forall|i: int| 0 <= i < s.len() ==> #[trigger] s[i] != '_' && s[i] <= '\x7f',
    ensures
        field_name(
            RenameRule::Pascal,
            variant_name(RenameRule::Snake, s, capitals(s)),
        ) == s,
{
    lemma_snake_pascal(s, capitals(s), s.len());
    assert(s.take(s.len() as int) =~= s);
}

/// Each rule is found by its spelling, and by no other.
pub proof fn lemma_rule_named(rule: RenameRule, s: Seq<char>)
    ensures
        rule_named(s) == Some(rule) <==> s == spelling(rule),
{
    reveal_strlit("lowercase");
    reveal_strlit("UPPERCASE");
    reveal_strlit("PascalCase");
    reveal_strlit("camelCase");
    reveal_strlit("snake_case");
    reveal_strlit("SCREAMING_SNAKE_CASE");
    reveal_strlit("kebab-case");
    reveal_strlit("SCREAMING-KEBAB-CASE");
    assert("lowercase"@[0] == 'l');
    assert("UPPERCASE"@[0] == 'U');
    assert("PascalCase"@[0] == 'P');
    assert("camelCase"@[0] == 'c');
    assert("snake_case"@[0] == 's');
    assert("SCREAMING_SNAKE_CASE"@[0] == 'S');
    assert("kebab-case"@[0] == 'k');
    assert("SCREAMING-KEBAB-CASE"@[0] == 'S');
    assert("SCREAMING_SNAKE_CASE"@[9] == '_');
    assert("SCREAMING-KEBAB-CASE"@[9] == '-');
}

/// An identifier without the marker of a raw one.
pub open spec fn stripped(ident: Seq<char>) -> Seq<char> {
    if ident.len() >= 2 && ident[0] == 'r' && ident[1] == '#' {
        ident.subrange(2, ident.len() as int)
    } else {
        ident
    }
}

/// An identifier without the `r#` of a raw one.
pub fn strip_raw(ident: &str) -> (result: String)
    ensures
        result@ == stripped(ident@),
{
    let n = ident.unicode_len();
    if n >= 2 && ident.get_char(0) == 'r' && ident.get_char(1) == '#' {
        ident.substring_char(2, n).to_owned()
    } else {
        ident.to_owned()
    }
}

/// Whether an ASCII letter is a capital.
pub open spec fn is_large(c: char) -> bool {
    'A' <= c && c <= 'Z'
}

/// Whether an ASCII letter is a small one.
pub open spec fn is_small(c: char) -> bool {
    'a' <= c && c <= 'z'
}

/// A rule is written the way it spells: with the separator that it puts between
/// words, with capitals alone or none, or with a capital in front.
pub proof fn lemma_spelled_alike(rule: RenameRule)
    ensures
        spelling(rule).contains('_') <==> rule is Snake || rule is ScreamingSnake,
        spelling(rule).contains('-') <==> rule is Kebab || rule is ScreamingKebab,
        (forall|i: int| 0 <= i < spelling(rule).len() ==> !is_small(#[trigger] spelling(rule)[i]))
            <==> rule is Upper || rule is ScreamingSnake || rule is ScreamingKebab,
        (forall|i: int| 0 <= i < spelling(rule).len() ==> !is_large(#[trigger] spelling(rule)[i]))
            <==> rule is Lower || rule is Snake || rule is Kebab,
        is_small(spelling(rule)[0]) <==> rule is Lower || rule is Camel || rule is Snake || rule
            is Kebab,
{
    reveal_strlit("lowercase");
    reveal_strlit("UPPERCASE");
    reveal_strlit("PascalCase");
    reveal_strlit("camelCase");
    reveal_strlit("snake_case");
    reveal_strlit("SCREAMING_SNAKE_CASE");
    reveal_strlit("kebab-case");
    reveal_strlit("SCREAMING-KEBAB-CASE");
    let t = spelling(rule);
    match rule {
        RenameRule::Snake => {
            assert(t[5] == '_');
        },
        RenameRule::ScreamingSnake => {
            assert(t[9] == '_');
        },
        RenameRule::Kebab => {
            assert(t[5] == '-');
        },
        RenameRule::ScreamingKebab => {
            assert(t[9] == '-');
        },
        RenameRule::Camel => {
            assert(is_large(t[5]));
        },
        RenameRule::Pascal => {
            assert(is_small(t[1]));
        },
        _ => {},
    }
    assert(is_small(t[0]) || is_large(t[0]));
}

} // verus!
