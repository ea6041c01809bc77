//! The file-name convention of a folder scan: `Title (Year).ext`, the layout
//! that the pattern `^(.+)\((\d{4})\)\.\w+$` describes, with `\d` and `\w`
//! the Unicode classes of the regex engine.

use vstd::prelude::*;
use crate::text::{lemma_trimmed_with_trailing_space, lemma_trimmed_unchanged, decimal, is_white_space, lemma_decimal, lemma_decimal_four_digits, lemma_replaced_absent, lemma_replaced_removes, lemma_trimmed, lemma_trimmed_with_space, is_ascii_digit, digits_value, trimmed, replaced, chars_of, string_from_chars, trim_chars, replace_char};

verus! {

/// The characters of the Unicode class that `regex_syntax::parse` makes of
/// `pattern`, as inclusive ranges; `None` where the pattern does not parse to
/// a single Unicode class.
pub uninterp spec fn regex_class_ranges(pattern: Seq<char>) -> Option<Seq<(char, char)>>;

/// Parses `pattern` with `regex_syntax::parse` and hands out the ranges of
/// the Unicode character class it denotes. Claims that the result is
/// `regex_class_ranges` of the pattern, and two facts of the crate's Unicode
/// tables (`unicode_tables/general_category.rs`, `DECIMAL_NUMBER`, and
/// `unicode_tables/perl_word.rs`, `PERL_WORD`, both sorted, starting with
/// `('0', '9')`): the class of `\d` holds the ASCII digits, the class of
/// `\w` does not hold the dot. Nothing else is said of the ranges.
#[verifier::external_body]
fn unicode_class_ranges(pattern: &str) -> (r: Option<Vec<(char, char)>>)
    ensures
        match r {
            Some(v) => regex_class_ranges(pattern@) == Some(v@),
            None => regex_class_ranges(pattern@) is None,
        },
        pattern@ == digit_class_pattern() ==> (r matches Some(v) ==> forall|c: char|
            is_ascii_digit(c) ==> #[trigger] in_ranges(v@, c)),
        pattern@ == word_class_pattern() ==> (r matches Some(v) ==> !in_ranges(v@, '.')),
{
    match regex_syntax::parse(pattern).map(regex_syntax::hir::Hir::into_kind) {
        Ok(regex_syntax::hir::HirKind::Class(regex_syntax::hir::Class::Unicode(class))) => Some(
            class.ranges().iter().map(|r| (r.start(), r.end())).collect(),
        ),
        _ => None,
    }
}

/// `c` lies in one of the inclusive `ranges`.
pub open spec fn in_ranges(ranges: Seq<(char, char)>, c: char) -> bool {
    exists|i: int| 0 <= i < ranges.len() && ranges[i].0 <= c && c <= #[trigger] ranges[i].1
}

/// Whether `c` lies in one of the inclusive `ranges`.
pub fn ranges_contain(ranges: &Vec<(char, char)>, c: char) -> (b: bool)
    ensures
        b == in_ranges(ranges@, c),
{
    let n = ranges.len();
    for i in 0..n
        invariant
            n == ranges@.len(),
            forall|j: int| 0 <= j < i ==> !(ranges@[j].0 <= c && c <= #[trigger] ranges@[j].1),
    {
        let (lo, hi) = ranges[i];
        if lo <= c && c <= hi {
            return true;
        }
    }
    false
}

/// Length of the longest run of characters from `word` at the end of `s`.
pub open spec fn trailing_word_len(s: Seq<char>, word: Seq<(char, char)>) -> nat
    decreases s.len(),
{
    if s.len() > 0 && in_ranges(word, s.last()) {
        1 + trailing_word_len(s.drop_last(), word)
    } else {
        0
    }
}

/// Splits a file name into the title part and the four year characters, or
/// `None` where it does not follow the convention. `digit` and `word` are the
/// classes `\d` and `\w`.
pub open spec fn split_file_name(
    s: Seq<char>,
    digit: Seq<(char, char)>,
    word: Seq<(char, char)>,
) -> Option<(Seq<char>, Seq<char>)> {
    let e = trailing_word_len(s, word) as int;
    let t = s.len() - e - 7;
    if e >= 1 && t >= 1 && s[t] == '(' && s[t + 5] == ')' && s[t + 6] == '.' && (forall|i: int|
        t + 1 <= i < t + 5 ==> in_ranges(digit, #[trigger] s[i])) && (forall|i: int|
        0 <= i < t ==> #[trigger] s[i] != '\n') {
        Some((s.take(t), s.subrange(t + 1, t + 5)))
    } else {
        None
    }
}

/// `s` is `title ( year ) . ext` in the sense of the pattern: a title of at
/// least one character other than a line feed, four characters of `digit`,
/// and an extension of at least one character of `word`.
pub open spec fn has_layout(
    s: Seq<char>,
    title: Seq<char>,
    year: Seq<char>,
    ext: Seq<char>,
    digit: Seq<(char, char)>,
    word: Seq<(char, char)>,
) -> bool {
    &&& s == title + seq!['('] + year + seq![')', '.'] + ext
    &&& title.len() >= 1
    &&& forall|i: int| 0 <= i < title.len() ==> #[trigger] title[i] != '\n'
    &&& year.len() == 4
    &&& forall|i: int| 0 <= i < 4 ==> in_ranges(digit, #[trigger] year[i])
    &&& ext.len() >= 1
    &&& forall|i: int| 0 <= i < ext.len() ==> in_ranges(word, #[trigger] ext[i])
}

proof fn lemma_trailing_word_len(s: Seq<char>, word: Seq<(char, char)>, k: int)
    requires
        0 <= k <= s.len(),
        forall|j: int| s.len() - k <= j < s.len() ==> in_ranges(word, #[trigger] s[j]),
        k == s.len() || !in_ranges(word, s[s.len() - k - 1]),
    ensures
        trailing_word_len(s, word) == k,
    decreases k,
{
    if k > 0 {
        let t = s.drop_last();
        assert forall|j: int| t.len() - (k - 1) <= j < t.len() implies in_ranges(
            word,
            #[trigger] t[j],
        ) by {
            assert(t[j] == s[j]);
        }
        lemma_trailing_word_len(t, word, k - 1);
    }
}

/// The split of a file name is exactly the match of the pattern: where the
/// split succeeds the name has the layout with the parts it returns, and
/// every layout of the name yields those parts. So the split is the only
/// way the name matches (given that `.` is no word character).
pub proof fn lemma_split_is_pattern_match(
    s: Seq<char>,
    digit: Seq<(char, char)>,
    word: Seq<(char, char)>,
)
    requires
        !in_ranges(word, '.'),
    ensures
        split_file_name(s, digit, word) matches Some((title, year)) ==> has_layout(
            s,
            title,
            year,
            s.skip(title.len() as int + 7),
            digit,
            word,
        ),
        forall|title: Seq<char>, year: Seq<char>, ext: Seq<char>|
            #[trigger] has_layout(s, title, year, ext, digit, word) ==> split_file_name(
                s,
                digit,
                word,
            ) == Some((title, year)),
{
    let e = trailing_word_len(s, word) as int;
    lemma_trailing_word_len_facts(s, word);
    if let Some((title, year)) = split_file_name(s, digit, word) {
        let t = s.len() - e - 7;
        let ext = s.skip(title.len() as int + 7);
        assert forall|i: int| 0 <= i < ext.len() implies in_ranges(word, #[trigger] ext[i]) by {
            assert(ext[i] == s[t + 7 + i]);
        }
        assert forall|i: int| 0 <= i < 4 implies in_ranges(digit, #[trigger] year[i]) by {
            assert(year[i] == s[t + 1 + i]);
        }
        assert(s =~= title + seq!['('] + year + seq![')', '.'] + ext);
    }
    assert forall|title: Seq<char>, year: Seq<char>, ext: Seq<char>|
        #[trigger] has_layout(s, title, year, ext, digit, word) implies split_file_name(
        s,
        digit,
        word,
    ) == Some((title, year)) by {
        let k = ext.len() as int;
        let t = title.len() as int;
        assert(s.len() == t + 7 + k);
        assert forall|j: int| s.len() - k <= j < s.len() implies in_ranges(
            word,
            #[trigger] s[j],
        ) by {
            assert(s[j] == ext[j - (t + 7)]);
        }
        assert(s[s.len() - k - 1] == '.');
        lemma_trailing_word_len(s, word, k);
        assert(s[t] == '(');
        assert(s[t + 5] == ')');
        assert(s[t + 6] == '.');
        assert forall|i: int| t + 1 <= i < t + 5 implies in_ranges(digit, #[trigger] s[i]) by {
            assert(s[i] == year[i - t - 1]);
        }
        assert forall|i: int| 0 <= i < t implies #[trigger] s[i] != '\n' by {
            assert(s[i] == title[i]);
        }
        assert(s.take(t) =~= title);
        assert(s.subrange(t + 1, t + 5) =~= year);
    }
}

proof fn lemma_trailing_word_len_facts(s: Seq<char>, word: Seq<(char, char)>)
    ensures
        trailing_word_len(s, word) <= s.len(),
        forall|j: int|
            s.len() - trailing_word_len(s, word) <= j < s.len() ==> in_ranges(
                word,
                #[trigger] s[j],
            ),
    decreases s.len(),
{
    if s.len() > 0 && in_ranges(word, s.last()) {
        let t = s.drop_last();
        lemma_trailing_word_len_facts(t, word);
        assert forall|j: int|
            s.len() - trailing_word_len(s, word) <= j < s.len() implies in_ranges(
            word,
            #[trigger] s[j],
        ) by {
            if j < s.len() - 1 {
                assert(s[j] == t[j]);
            }
        }
    }
}


/// The year a file name states: the value of its year characters where they
/// are ASCII digits, else 0 (`parse::<i64>().unwrap_or(0)`; the four
/// characters carry no sign).
pub open spec fn year_of(d: Seq<char>) -> int {
    if forall|i: int| 0 <= i < d.len() ==> is_ascii_digit(#[trigger] d[i]) {
        digits_value(d)
    } else {
        0
    }
}

/// The title a file name states: underscores read as spaces, surrounding
/// white space dropped.
pub open spec fn clean_title(raw: Seq<char>) -> Seq<char> {
    trimmed(replaced(raw, '_', seq![' ']))
}

/// Title and year of a file name that follows the convention, else `None`.
pub open spec fn movie_file_name(
    s: Seq<char>,
    digit: Seq<(char, char)>,
    word: Seq<(char, char)>,
) -> Option<(Seq<char>, int)> {
    match split_file_name(s, digit, word) {
        Some((title, year)) => Some((clean_title(title), year_of(year))),
        None => None,
    }
}

/// The value of four year characters, as `year_of` defines it.
fn year_value(d: &Vec<char>) -> (y: i64)
    requires
        d@.len() == 4,
    ensures
        y == year_of(d@),
{
    let mut v: i64 = 0;
    for i in 0..4usize
        invariant
            d@.len() == 4,
            forall|j: int| 0 <= j < i ==> is_ascii_digit(#[trigger] d@[j]),
            v == digits_value(d@.take(i as int)),
            0 <= v,
            i == 0 ==> v == 0,
            i <= 1 ==> v <= 9,
            i <= 2 ==> v <= 99,
            i <= 3 ==> v <= 999,
    {
        let c = d[i];
        if !('0' <= c && c <= '9') {
            assert(!is_ascii_digit(d@[i as int]));
            return 0;
        }
        assert(d@.take(i + 1).drop_last() =~= d@.take(i as int));
        v = v * 10 + ((c as u32) - 48) as i64;
    }
    assert(d@.take(4) =~= d@);
    v
}

/// The classes `\d` and `\w` of the file-name pattern, as the regex engine
/// defines them.
pub struct FilenamePattern {
    digit: Vec<(char, char)>,
    word: Vec<(char, char)>,
}

/// The pattern text of the class `\d`.
pub open spec fn digit_class_pattern() -> Seq<char> {
    seq!['\\', 'd']
}

/// The pattern text of the class `\w`.
pub open spec fn word_class_pattern() -> Seq<char> {
    seq!['\\', 'w']
}

impl FilenamePattern {
    /// The characters of `\d`.
    pub closed spec fn digit_class(&self) -> Seq<(char, char)> {
        self.digit@
    }

    /// The characters of `\w`.
    pub closed spec fn word_class(&self) -> Seq<(char, char)> {
        self.word@
    }

    /// The classes behave as the pattern's `\d` and `\w` do on the
    /// characters of the convention: ASCII digits are digits, the dot is no
    /// word character.
    pub closed spec fn wf(&self) -> bool {
        &&& forall|c: char| is_ascii_digit(c) ==> #[trigger] in_ranges(self.digit@, c)
        &&& !in_ranges(self.word@, '.')
    }

    /// Builds the pattern from the regex engine's classes; `None` only where
    /// the engine does not hand them out.
    pub fn new() -> (r: Option<FilenamePattern>)
        ensures
            r matches Some(p) ==> p.wf(),
            r is Some <==> (regex_class_ranges(digit_class_pattern()) is Some
                && regex_class_ranges(word_class_pattern()) is Some),
            r matches Some(p) ==> {
                &&& regex_class_ranges(digit_class_pattern()) == Some(p.digit_class())
                &&& regex_class_ranges(word_class_pattern()) == Some(p.word_class())
            },
    {
        let d = "\\d";
        let w = "\\w";
        proof {
            reveal_strlit("\\d");
            reveal_strlit("\\w");
            assert(d@ =~= digit_class_pattern());
            assert(w@ =~= word_class_pattern());
        }
        match (unicode_class_ranges(d), unicode_class_ranges(w)) {
            (Some(digit), Some(word)) => Some(FilenamePattern { digit, word }),
            _ => None,
        }
    }

    /// Title and year of a movie file name of the form `Title (Year).ext`:
    /// the title with underscores read as spaces and surrounding white space
    /// dropped, the year 0 where its digits are not ASCII. `None` where the
    /// name does not follow the convention.
    #[verifier::loop_isolation(false)]
    pub fn parse_file_name(&self, name: &str) -> (r: Option<(String, i64)>)
        ensures
            match (r, movie_file_name(name@, self.digit_class(), self.word_class())) {
                (Some((title, year)), Some((t, y))) => title@ == t && year == y,
                (None, None) => true,
                _ => false,
            },
    {
        let v = chars_of(name);
        let n = v.len();
        let mut e: usize = 0;
        while e < n && ranges_contain(&self.word, v[n - 1 - e])
            invariant
                n == v@.len(),
                e <= n,
                forall|j: int| n - e <= j < n ==> in_ranges(self.word@, #[trigger] v@[j]),
            decreases n - e,
        {
            e += 1;
        }
        proof {
            lemma_trailing_word_len(v@, self.word@, e as int);
        }
        if e < 1 || n - e < 8 {
            return None;
        }
        let t = n - e - 7;
        if v[t] != '(' || v[t + 5] != ')' || v[t + 6] != '.' {
            return None;
        }
        let ghost digit = self.digit@;
        let ghost word = self.word@;
        let mut year: Vec<char> = Vec::new();
        for i in 1..5usize
            invariant
                n == v@.len(),
                t + 7 <= n,
                year@ == v@.subrange(t + 1, t + i as int),
                forall|j: int| t + 1 <= j < t + i ==> in_ranges(self.digit@, #[trigger] v@[j]),
        {
            if !ranges_contain(&self.digit, v[t + i]) {
                assert(!in_ranges(self.digit@, v@[t + i]));
                return None;
            }
            year.push(v[t + i]);
            assert(year@ =~= v@.subrange(t + 1, t + i + 1));
        }
        let mut raw: Vec<char> = Vec::new();
        for i in 0..t
            invariant
                n == v@.len(),
                t + 7 <= n,
                raw@ == v@.take(i as int),
                forall|j: int| 0 <= j < i ==> #[trigger] v@[j] != '\n',
        {
            if v[i] == '\n' {
                assert(v@[i as int] == '\n');
                return None;
            }
            raw.push(v[i]);
            assert(raw@ =~= v@.take(i + 1));
        }
        let space = vec![' '];
        assert(space@ =~= seq![' ']);
        let spaced = replace_char(&raw, '_', &space);
        let title = trim_chars(&spaced);
        let y = year_value(&year);
        assert(split_file_name(v@, self.digit@, self.word@) == Some((raw@, year@)));
        Some((string_from_chars(&title), y))
    }
}


/// A movie named by the convention is read back: a title without
/// underscores, line feeds or white space at its ends, a space, the year in
/// parentheses (1000 to 9999), a dot and an extension of word characters,
/// gives back that title and year. This holds for classes in which the ASCII
/// digits are digits and the dot is no word character, as in the regex
/// engine's `\d` and `\w`.
pub proof fn lemma_file_name_round_trip(
    title: Seq<char>,
    year: nat,
    ext: Seq<char>,
    digit: Seq<(char, char)>,
    word: Seq<(char, char)>,
)
    requires
        title.len() > 0,
        !is_white_space(title[0]),
        !is_white_space(title.last()),
        forall|i: int| 0 <= i < title.len() ==> #[trigger] title[i] != '_' && title[i] != '\n',
        1000 <= year <= 9999,
        ext.len() >= 1,
        forall|i: int| 0 <= i < ext.len() ==> in_ranges(word, #[trigger] ext[i]),
        !in_ranges(word, '.'),
        forall|c: char| is_ascii_digit(c) ==> in_ranges(digit, c),
    ensures
        movie_file_name(
            title + seq![' ', '('] + decimal(year) + seq![')', '.'] + ext,
            digit,
            word,
        ) == Some((title, year as int)),
{
    let raw = title + seq![' '];
    let y = decimal(year);
    let s = title + seq![' ', '('] + y + seq![')', '.'] + ext;
    lemma_decimal(year);
    lemma_decimal_four_digits(year);
    assert(s =~= raw + seq!['('] + y + seq![')', '.'] + ext);
    assert forall|i: int| 0 <= i < raw.len() implies #[trigger] raw[i] != '\n' by {
        if i < title.len() {
            assert(raw[i] == title[i]);
        }
    }
    assert forall|i: int| 0 <= i < 4 implies in_ranges(digit, #[trigger] y[i]) by {
        assert(is_ascii_digit(y[i]));
    }
    assert(has_layout(s, raw, y, ext, digit, word));
    lemma_split_is_pattern_match(s, digit, word);
    assert(split_file_name(s, digit, word) == Some((raw, y)));
    assert forall|i: int| 0 <= i < raw.len() implies #[trigger] raw[i] != '_' by {
        if i < title.len() {
            assert(raw[i] == title[i]);
        }
    }
    lemma_replaced_absent(raw, '_', seq![' ']);
    lemma_trimmed_with_space(title);
    assert(clean_title(raw) == title);
    assert(year_of(y) == year);
}

/// A title without underscores and without white space at its ends is read
/// as it stands: no character of it is lost or changed.
pub proof fn lemma_clean_title_keeps_title(raw: Seq<char>)
    requires
        raw.len() > 0,
        !is_white_space(raw[0]),
        !is_white_space(raw.last()),
        forall|i: int| 0 <= i < raw.len() ==> #[trigger] raw[i] != '_',
    ensures
        clean_title(raw) == raw,
{
    lemma_replaced_absent(raw, '_', seq![' ']);
    lemma_trimmed_unchanged(raw);
}

/// A movie named by the convention is read back whatever number of spaces
/// (none included) stands between the title and the parenthesis: a title
/// without underscores, line feeds or white space at its ends, the spaces,
/// the year in parentheses (1000 to 9999), a dot and an extension of word
/// characters give back exactly that title and year, for classes in which
/// the ASCII digits are digits and the dot is no word character.
pub proof fn lemma_file_name_round_trip_spaced(
    title: Seq<char>,
    gap: Seq<char>,
    year: nat,
    ext: Seq<char>,
    digit: Seq<(char, char)>,
    word: Seq<(char, char)>,
)
    requires
        title.len() > 0,
        !is_white_space(title[0]),
        !is_white_space(title.last()),
        forall|i: int| 0 <= i < title.len() ==> #[trigger] title[i] != '_' && title[i] != '\n',
        forall|i: int| 0 <= i < gap.len() ==> #[trigger] gap[i] == ' ',
        1000 <= year <= 9999,
        ext.len() >= 1,
        forall|i: int| 0 <= i < ext.len() ==> in_ranges(word, #[trigger] ext[i]),
        !in_ranges(word, '.'),
        forall|c: char| is_ascii_digit(c) ==> in_ranges(digit, c),
    ensures
        movie_file_name(
            title + gap + seq!['('] + decimal(year) + seq![')', '.'] + ext,
            digit,
            word,
        ) == Some((title, year as int)),
{
    let raw = title + gap;
    let y = decimal(year);
    let s = title + gap + seq!['('] + y + seq![')', '.'] + ext;
    lemma_decimal(year);
    lemma_decimal_four_digits(year);
    assert(s =~= raw + seq!['('] + y + seq![')', '.'] + ext);
    assert forall|i: int| 0 <= i < raw.len() implies #[trigger] raw[i] != '\n' && raw[i] != '_' by {
        if i < title.len() {
            assert(raw[i] == title[i]);
        } else {
            assert(raw[i] == gap[i - title.len()]);
        }
    }
    assert forall|i: int| 0 <= i < 4 implies in_ranges(digit, #[trigger] y[i]) by {
        assert(is_ascii_digit(y[i]));
    }
    assert(has_layout(s, raw, y, ext, digit, word));
    lemma_split_is_pattern_match(s, digit, word);
    assert(split_file_name(s, digit, word) == Some((raw, y)));
    lemma_replaced_absent(raw, '_', seq![' ']);
    assert forall|i: int| 0 <= i < gap.len() implies is_white_space(#[trigger] gap[i]) by {
        assert(gap[i] == ' ');
    }
    lemma_trimmed_with_trailing_space(title, gap);
    assert(clean_title(raw) == title);
    assert(year_of(y) == year);
}

/// The title read from a file name has no underscore and no white space at
/// its ends.
pub proof fn lemma_clean_title(raw: Seq<char>)
    ensures
        forall|i: int| 0 <= i < clean_title(raw).len() ==> #[trigger] clean_title(raw)[i] != '_',
        clean_title(raw).len() > 0 ==> !is_white_space(clean_title(raw)[0]),
        clean_title(raw).len() > 0 ==> !is_white_space(clean_title(raw).last()),
{
    let spaced = replaced(raw, '_', seq![' ']);
    lemma_replaced_removes(raw, '_', seq![' ']);
    lemma_trimmed(spaced);
    let t = trimmed(spaced);
    let a = choose|a: int| 0 <= a && a + t.len() <= spaced.len() && t == #[trigger] spaced.subrange(a, a + t.len());
    assert forall|i: int| 0 <= i < t.len() implies #[trigger] t[i] != '_' by {
        assert(t[i] == spaced[a + i]);
    }
}

/// The year read from a file name lies between 0 and 9999.
pub proof fn lemma_year_range(d: Seq<char>)
    requires
        d.len() == 4,
    ensures
        0 <= year_of(d) <= 9999,
{
    if forall|i: int| 0 <= i < d.len() ==> is_ascii_digit(#[trigger] d[i]) {
        let d3 = d.drop_last();
        let d2 = d3.drop_last();
        let d1 = d2.drop_last();
        let d0 = d1.drop_last();
        assert(is_ascii_digit(d[0]) && is_ascii_digit(d[1]) && is_ascii_digit(d[2])
            && is_ascii_digit(d[3]));
        assert(d1.last() == d[0] && d2.last() == d[1] && d3.last() == d[2] && d.last() == d[3]);
        assert(d0.len() == 0);
        assert(digits_value(d0) == 0);
        assert(48 <= d[0] as int <= 57 && 48 <= d[1] as int <= 57 && 48 <= d[2] as int <= 57 && 48
            <= d[3] as int <= 57);
        assert(0 <= digits_value(d1) <= 9);
        assert(0 <= digits_value(d2) <= 99);
        assert(0 <= digits_value(d3) <= 999);
        assert(0 <= digits_value(d) <= 9999);
    }
}


impl FilenamePattern {
    /// A movie named by the convention is read back by the scan's pattern:
    /// a title without underscores, line feeds or white space at its ends, a
    /// space, the year in parentheses (1000 to 9999), a dot and an extension
    /// of word characters give back that title and year.
    pub proof fn lemma_reads_back(self, title: Seq<char>, year: nat, ext: Seq<char>)
        requires
            self.wf(),
            title.len() > 0,
            !is_white_space(title[0]),
            !is_white_space(title.last()),
            forall|i: int| 0 <= i < title.len() ==> #[trigger] title[i] != '_' && title[i] != '\n',
            1000 <= year <= 9999,
            ext.len() >= 1,
            forall|i: int| 0 <= i < ext.len() ==> in_ranges(self.word_class(), #[trigger] ext[i]),
        ensures
            movie_file_name(
                title + seq![' ', '('] + decimal(year) + seq![')', '.'] + ext,
                self.digit_class(),
                self.word_class(),
            ) == Some((title, year as int)),
    {
        lemma_file_name_round_trip(title, year, ext, self.digit@, self.word@);
    }

    /// The scan's pattern reads a conventional name back exactly, with any
    /// number of spaces (none included) before the parenthesis.
    pub proof fn lemma_reads_back_spaced(
        self,
        title: Seq<char>,
        gap: Seq<char>,
        year: nat,
        ext: Seq<char>,
    )
        requires
            self.wf(),
            title.len() > 0,
            !is_white_space(title[0]),
            !is_white_space(title.last()),
            forall|i: int| 0 <= i < title.len() ==> #[trigger] title[i] != '_' && title[i] != '\n',
            forall|i: int| 0 <= i < gap.len() ==> #[trigger] gap[i] == ' ',
            1000 <= year <= 9999,
            ext.len() >= 1,
            forall|i: int| 0 <= i < ext.len() ==> in_ranges(self.word_class(), #[trigger] ext[i]),
        ensures
            movie_file_name(
                title + gap + seq!['('] + decimal(year) + seq![')', '.'] + ext,
                self.digit_class(),
                self.word_class(),
            ) == Some((title, year as int)),
    {
        lemma_file_name_round_trip_spaced(title, gap, year, ext, self.digit@, self.word@);
    }
}

} // verus!
