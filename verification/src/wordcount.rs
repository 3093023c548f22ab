//! Line, word and character counting over text whose words are the maximal
//! alphabetic runs.

use vstd::prelude::*;

verus! {

/// What the alphabetic collapse of a line returns: its exact characters are
/// the regex engine's business; the counting below works on whatever comes
/// back.
pub uninterp spec fn alpha_collapsed(s: Seq<char>) -> Seq<char>;

/// Relies on regex's `Regex::replace_all` with the fixed pattern
/// `[^a-zA-Z]+`: every maximal run of non-alphabetic characters becomes one
/// space, so the words that remain are the alphabetic runs. The pattern is a
/// fixed valid literal, so `Regex::new` cannot fail; the result depends on
/// the line alone, and an empty line stays empty (the pattern needs at least
/// one character to match).
#[verifier::external_body]
fn collapse_non_alpha(line: &str) -> (r: String)
    ensures
        r@ == alpha_collapsed(line@),
        line@.len() == 0 ==> r@.len() == 0,
{
    regex::Regex::new("[^a-zA-Z]+").unwrap().replace_all(line, " ").into_owned()
}

/// The number of maximal runs of non-space characters: a run starts at a
/// non-space whose predecessor is a space or the start of the text.
pub open spec fn spec_word_count(s: Seq<char>) -> int
    decreases s.len(),
{
    if s.len() == 0 {
        0
    } else {
        let prev = spec_word_count(s.drop_last());
        if s.last() != ' ' && (s.len() == 1 || s[s.len() - 2] == ' ') {
            prev + 1
        } else {
            prev
        }
    }
}

/// Count the space-separated words of `s`.
pub fn count_words(s: &str) -> (n: usize)
    ensures
        n == spec_word_count(s@),
{
    let len = s.unicode_len();
    let mut n: usize = 0;
    let mut i: usize = 0;
    let mut prev_space = true;
    while i < len
        invariant
            i <= len,
            len == s@.len(),
            n == spec_word_count(s@.take(i as int)),
            n <= i,
            prev_space == (i == 0 || s@[i as int - 1] == ' '),
        decreases len - i,
    {
        let ghost prefix = s@.take(i as int);
        let ghost next = s@.take(i as int + 1);
        proof {
            assert(next.drop_last() =~= prefix);
            assert(next.last() == s@[i as int]);
        }
        let c = s.get_char(i);
        if c != ' ' && prev_space {
            n += 1;
        }
        prev_space = c == ' ';
        i += 1;
    }
    proof {
        assert(s@.take(len as int) =~= s@);
    }
    n
}

/// The words of one line of running text: collapse everything that is not a
/// letter, then count what remains.
pub fn line_word_count(line: &str) -> (n: usize)
    ensures
        n == spec_word_count(alpha_collapsed(line@)),
{
    let collapsed = collapse_non_alpha(line);
    count_words(collapsed.as_str())
}

/// Totals over a text, line by line.
pub struct TextStats {
    /// How many lines.
    pub lines: usize,
    /// Words over all lines, counted after the alphabetic collapse.
    pub words: usize,
    /// Characters over all lines (line separators not counted).
    pub chars: usize,
}

/// Total words of the lines, counted after the alphabetic collapse.
pub open spec fn spec_total_words(lines: Seq<Seq<char>>) -> int
    decreases lines.len(),
{
    if lines.len() == 0 {
        0
    } else {
        spec_total_words(lines.drop_last()) + spec_word_count(alpha_collapsed(lines.last()))
    }
}

/// Total characters of the lines.
pub open spec fn spec_total_chars(lines: Seq<Seq<char>>) -> int
    decreases lines.len(),
{
    if lines.len() == 0 {
        0
    } else {
        spec_total_chars(lines.drop_last()) + lines.last().len()
    }
}

/// Clamp a tally into the counter's range.
pub open spec fn capped(x: int) -> int {
    if x <= usize::MAX {
        x
    } else {
        usize::MAX as int
    }
}

/// Count lines, words and characters of a text given as its lines. The word
/// and character tallies saturate at the top of their range.
pub fn text_stats(lines: &Vec<String>) -> (r: TextStats)
    ensures
        r.lines == lines@.len(),
        r.words == capped(spec_total_words(lines.deep_view())),
        r.chars == capped(spec_total_chars(lines.deep_view())),
{
    let mut words: usize = 0;
    let mut chars: usize = 0;
    let mut i: usize = 0;
    while i < lines.len()
        invariant
            i <= lines@.len(),
            words == capped(spec_total_words(lines.deep_view().take(i as int))),
            chars == capped(spec_total_chars(lines.deep_view().take(i as int))),
        decreases lines@.len() - i,
    {
        let ghost dv = lines.deep_view();
        let ghost prefix = dv.take(i as int);
        let ghost next = dv.take(i as int + 1);
        proof {
            assert(next.drop_last() =~= prefix);
            assert(next.last() == dv[i as int]);
            lemma_word_count_nonneg(alpha_collapsed(dv[i as int]));
            lemma_total_words_nonneg(prefix);
            lemma_total_chars_nonneg(prefix);
        }
        let w = line_word_count(lines[i].as_str());
        words = saturating_add(words, w);
        let c = lines[i].as_str().unicode_len();
        chars = saturating_add(chars, c);
        i += 1;
    }
    proof {
        assert(lines.deep_view().take(lines@.len() as int) =~= lines.deep_view());
    }
    TextStats { lines: lines.len(), words, chars }
}

/// Add without wrapping: the exact sum when it fits, the maximum otherwise.
fn saturating_add(a: usize, b: usize) -> (r: usize)
    ensures
        r == capped(a + b),
{
    if a > usize::MAX - b {
        usize::MAX
    } else {
        a + b
    }
}

proof fn lemma_word_count_nonneg(s: Seq<char>)
    ensures
        spec_word_count(s) >= 0,
    decreases s.len(),
{
    if s.len() > 0 {
        lemma_word_count_nonneg(s.drop_last());
    }
}

proof fn lemma_total_words_nonneg(lines: Seq<Seq<char>>)
    ensures
        spec_total_words(lines) >= 0,
    decreases lines.len(),
{
    if lines.len() > 0 {
        lemma_total_words_nonneg(lines.drop_last());
        lemma_word_count_nonneg(alpha_collapsed(lines.last()));
    }
}

proof fn lemma_total_chars_nonneg(lines: Seq<Seq<char>>)
    ensures
        spec_total_chars(lines) >= 0,
    decreases lines.len(),
{
    if lines.len() > 0 {
        lemma_total_chars_nonneg(lines.drop_last());
    }
}

} // verus!
