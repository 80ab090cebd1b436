//! Column-aligned text: a fixed number of lines that grow together, one
//! column at a time, every field of a column padded to the column's width.

use vstd::prelude::*;
use vstd::string::{StrSliceExecFns, StringExecFns, StringSliceAdditionalSpecFns};
use vstd::utf8::encode_utf8;

verus! {

/// `n` spaces.
pub open spec fn spaces(n: nat) -> Seq<char> {
    Seq::new(n, |i: int| ' ')
}

/// The width that a word asks of its column: its length in bytes, in UTF-8.
/// For plain ASCII that is the number of its characters.
pub open spec fn width_of(word: Seq<char>) -> nat {
    encode_utf8(word).len()
}

/// The width of a column: the largest width that one of its words asks for,
/// and zero for no words.
pub open spec fn column_width(words: Seq<Seq<char>>) -> nat
    decreases words.len(),
{
    if words.len() == 0 {
        0
    } else {
        let rest = column_width(words.drop_last());
        if width_of(words.last()) > rest {
            width_of(words.last())
        } else {
            rest
        }
    }
}

/// The number of spaces that fill `word` up to `width` characters.
pub open spec fn padding(word: Seq<char>, width: nat) -> nat {
    if word.len() < width {
        (width - word.len()) as nat
    } else {
        0
    }
}

/// `word`, then spaces up to `width` characters.
pub open spec fn left_aligned(word: Seq<char>, width: nat) -> Seq<char> {
    word + spaces(padding(word, width))
}

/// Spaces up to `width` characters, then `word`.
pub open spec fn right_aligned(word: Seq<char>, width: nat) -> Seq<char> {
    spaces(padding(word, width)) + word
}

/// The texts of a list of strings.
pub open spec fn texts(words: Seq<String>) -> Seq<Seq<char>> {
    Seq::new(words.len(), |i: int| words[i]@)
}

/// A text has at least as many bytes as characters.
pub proof fn lemma_width_covers_chars(word: Seq<char>)
    ensures
        word.len() <= width_of(word),
    decreases word.len(),
{
    if word.len() > 0 {
        lemma_width_covers_chars(word.drop_first());
    }
}

/// No word of a column is wider than the column.
pub proof fn lemma_column_width_covers(words: Seq<Seq<char>>, i: int)
    requires
        0 <= i < words.len(),
    ensures
        width_of(words[i]) <= column_width(words),
    decreases words.len(),
{
    if i < words.len() - 1 {
        lemma_column_width_covers(words.drop_last(), i);
    }
}

/// Every field of a column is exactly as wide as the column, aligned either
/// way: the rows of a table stay equally long.
pub proof fn lemma_fields_fill_column(words: Seq<Seq<char>>, i: int)
    requires
        0 <= i < words.len(),
    ensures
        left_aligned(words[i], column_width(words)).len() == column_width(words),
        right_aligned(words[i], column_width(words)).len() == column_width(words),
{
    lemma_width_covers_chars(words[i]);
    lemma_column_width_covers(words, i);
}

/// A text of ASCII characters is as wide as it is long, and a column of its
/// own leaves it as it is.
pub proof fn lemma_ascii_fills_own_column(word: Seq<char>)
    requires
        vstd::utf8::is_ascii_chars(word),
    ensures
        width_of(word) == word.len(),
        left_aligned(word, width_of(word)) == word,
        right_aligned(word, width_of(word)) == word,
{
    vstd::utf8::is_ascii_chars_encode_utf8(word);
    assert(spaces(0) =~= Seq::<char>::empty());
    assert(word + Seq::<char>::empty() =~= word);
    assert(Seq::<char>::empty() + word =~= word);
}

/// Appends `count` spaces to `line`.
fn push_spaces(line: &mut String, count: usize)
    ensures
        final(line)@ == old(line)@ + spaces(count as nat),
{
    let mut done: usize = 0;
    assert(line@ =~= old(line)@ + spaces(0));
    while done < count
        invariant
            done <= count,
            line@ == old(line)@ + spaces(done as nat),
        decreases count - done,
    {
        proof {
            reveal_strlit(" ");
            assert(" "@ =~= seq![' ']);
            assert(spaces(done as nat) + seq![' '] =~= spaces((done + 1) as nat));
        }
        line.append(" ");
        done += 1;
        assert(line@ =~= old(line)@ + spaces(done as nat));
    }
}

/// Appends `word` to `line`, padded with spaces to `width` characters, on
/// the right of the word if `left` and on its left otherwise.
fn push_aligned(line: &mut String, word: &str, width: usize, left: bool)
    ensures
        left ==> final(line)@ == old(line)@ + left_aligned(word@, width as nat),
        !left ==> final(line)@ == old(line)@ + right_aligned(word@, width as nat),
{
    let chars: usize = word.unicode_len();
    let fill: usize = if chars < width {
        width - chars
    } else {
        0
    };
    if left {
        line.append(word);
        push_spaces(line, fill);
        assert(line@ =~= old(line)@ + left_aligned(word@, width as nat));
    } else {
        push_spaces(line, fill);
        line.append(word);
        assert(line@ =~= old(line)@ + right_aligned(word@, width as nat));
    }
}

/// The length of `word` in bytes.
fn byte_len(word: &str) -> (len: usize)
    ensures
        len == width_of(word@),
{
    word.as_bytes().len()
}

/// The width of the column that holds `words`.
fn max_width(words: &Vec<String>) -> (width: usize)
    ensures
        width == column_width(texts(words@)),
{
    let mut width: usize = 0;
    let mut i: usize = 0;
    while i < words.len()
        invariant
            i <= words@.len(),
            width == column_width(texts(words@).take(i as int)),
        decreases words.len() - i,
    {
        proof {
            assert(texts(words@).take(i + 1).drop_last() =~= texts(words@).take(i as int));
            assert(texts(words@).take(i + 1).last() == words@[i as int]@);
        }
        let w: usize = byte_len(words[i].as_str());
        if w > width {
            width = w;
        }
        i += 1;
    }
    proof {
        assert(texts(words@).take(words@.len() as int) =~= texts(words@));
    }
    width
}

/// A fixed number of text lines that are written column by column.
pub struct AlignedWriter {
    lines: Vec<String>,
}

impl View for AlignedWriter {
    type V = Seq<Seq<char>>;

    closed spec fn view(&self) -> Seq<Seq<char>> {
        texts(self.lines@)
    }
}

impl AlignedWriter {
    /// `count` empty lines.
    pub fn new(count: usize) -> (writer: AlignedWriter)
        ensures
            writer@.len() == count,
            forall|i: int| 0 <= i < count ==> #[trigger] writer@[i] == Seq::<char>::empty(),
    {
        let mut lines: Vec<String> = Vec::new();
        let mut i: usize = 0;
        while i < count
            invariant
                i <= count,
                lines@.len() == i,
                forall|j: int| 0 <= j < i ==> (#[trigger] lines@[j])@ == Seq::<char>::empty(),
            decreases count - i,
        {
            lines.push(String::new());
            i += 1;
        }
        AlignedWriter { lines }
    }

    /// Appends one column: `words[i]` goes to line `i`, padded on either
    /// side to the width of the column.
    fn write_column(&mut self, words: &Vec<String>, left: bool)
        requires
            words@.len() == old(self)@.len(),
        ensures
            final(self)@.len() == old(self)@.len(),
            left ==> forall|i: int|
                0 <= i < old(self)@.len() ==> #[trigger] final(self)@[i] == old(self)@[i]
                    + left_aligned(words@[i]@, column_width(texts(words@))),
            !left ==> forall|i: int|
                0 <= i < old(self)@.len() ==> #[trigger] final(self)@[i] == old(self)@[i]
                    + right_aligned(words@[i]@, column_width(texts(words@))),
    {
        let width: usize = max_width(words);
        let n: usize = self.lines.len();
        let mut i: usize = 0;
        while i < n
            invariant
                n == words@.len(),
                n == self.lines@.len(),
                n == old(self).lines@.len(),
                width == column_width(texts(words@)),
                i <= n,
                forall|j: int| i <= j < n ==> (#[trigger] self.lines@[j])@ == old(self).lines@[j]@,
                left ==> forall|j: int|
                    0 <= j < i ==> (#[trigger] self.lines@[j])@ == old(self).lines@[j]@
                        + left_aligned(words@[j]@, width as nat),
                !left ==> forall|j: int|
                    0 <= j < i ==> (#[trigger] self.lines@[j])@ == old(self).lines@[j]@
                        + right_aligned(words@[j]@, width as nat),
            decreases n - i,
        {
            push_aligned(&mut self.lines[i], words[i].as_str(), width, left);
            i += 1;
        }
    }

    /// Appends a column of labels: every word is followed by spaces up to
    /// the width of the column.
    pub fn write_n_l(&mut self, words: &Vec<String>)
        requires
            words@.len() == old(self)@.len(),
        ensures
            final(self)@.len() == old(self)@.len(),
            forall|i: int|
                0 <= i < old(self)@.len() ==> #[trigger] final(self)@[i] == old(self)@[i]
                    + left_aligned(words@[i]@, column_width(texts(words@))),
    {
        self.write_column(words, true);
    }

    /// Appends a column of values: every word is preceded by spaces up to
    /// the width of the column.
    pub fn write_n_r(&mut self, words: &Vec<String>)
        requires
            words@.len() == old(self)@.len(),
        ensures
            final(self)@.len() == old(self)@.len(),
            forall|i: int|
                0 <= i < old(self)@.len() ==> #[trigger] final(self)@[i] == old(self)@[i]
                    + right_aligned(words@[i]@, column_width(texts(words@))),
    {
        self.write_column(words, false);
    }

    /// Appends the same word to every line, as a column of labels of its
    /// own.
    pub fn write(&mut self, s: &str)
        ensures
            final(self)@.len() == old(self)@.len(),
            forall|i: int|
                0 <= i < old(self)@.len() ==> #[trigger] final(self)@[i] == old(self)@[i]
                    + left_aligned(s@, width_of(s@)),
    {
        let width: usize = byte_len(s);
        let n: usize = self.lines.len();
        let mut i: usize = 0;
        while i < n
            invariant
                n == self.lines@.len(),
                n == old(self).lines@.len(),
                width == width_of(s@),
                i <= n,
                forall|j: int| i <= j < n ==> (#[trigger] self.lines@[j])@ == old(self).lines@[j]@,
                forall|j: int|
                    0 <= j < i ==> (#[trigger] self.lines@[j])@ == old(self).lines@[j]@
                        + left_aligned(s@, width as nat),
            decreases n - i,
        {
            push_aligned(&mut self.lines[i], s, width, true);
            i += 1;
        }
    }

    /// Hands over the lines as written so far.
    pub fn into_lines(self) -> (lines: Vec<String>)
        ensures
            texts(lines@) == self@,
    {
        self.lines
    }

    /// The lines as written so far.
    pub fn lines(&self) -> (lines: &Vec<String>)
        ensures
            texts(lines@) == self@,
    {
        &self.lines
    }
}

} // verus!
