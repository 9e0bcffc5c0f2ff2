//! Score store: holds the whole text of the two-line score file and
//! converts it to and from the pair of integer lists (highscores and
//! line counts). Reading and writing the file itself is the caller's
//! work; the store only decides what the text means and what to persist.

use crate::codec::{
    decode_spec, encode_spec, first_index, is_digit, lemma_decode_encode, lemma_dec_rep,
    lemma_first_index, line_to_slice, slice_to_string,
};
use vstd::prelude::*;
use vstd::string::StrSliceExecFns;
use vstd::string::StringExecFns;

verus! {

/// The file text a saved record serializes to: the highscores line, then
/// the line-counts line, each terminated by a newline.
pub open spec fn record_text(hs: Seq<u32>, ls: Seq<u32>) -> Seq<char> {
    encode_spec(hs) + seq!['\n'] + encode_spec(ls) + seq!['\n']
}

/// Content with a single final newline (the second line's terminator)
/// removed, if there is one.
pub open spec fn strip_last_newline(s: Seq<char>) -> Seq<char> {
    if s.len() > 0 && s.last() == '\n' {
        s.drop_last()
    } else {
        s
    }
}

/// The record a file's text holds. After dropping the final newline the
/// text must still contain a newline, splitting it into exactly two lines;
/// the first decodes to the highscores, the second to the line counts.
/// Text without two lines holds no record.
pub open spec fn parse_record(s: Seq<char>) -> Option<(Seq<u32>, Seq<u32>)> {
    let t = strip_last_newline(s);
    let j = first_index(t, '\n');
    if j == t.len() {
        None
    } else {
        Some((decode_spec(t.take(j)), decode_spec(t.skip(j + 1))))
    }
}

/// Every character an encoding emits is a digit or a space; in particular
/// an encoded line never contains a newline.
pub proof fn lemma_encode_chars(vs: Seq<u32>)
    ensures
        forall|k: int|
            0 <= k < encode_spec(vs).len() ==> (is_digit(#[trigger] encode_spec(vs)[k])
                || encode_spec(vs)[k] == ' '),
    decreases vs.len(),
{
    let e = encode_spec(vs);
    if vs.len() == 0 {
    } else if vs.len() == 1 {
        lemma_dec_rep(vs[0] as nat);
    } else {
        lemma_dec_rep(vs[0] as nat);
        lemma_encode_chars(vs.drop_first());
        let t = crate::codec::dec_rep(vs[0] as nat);
        let rest = encode_spec(vs.drop_first());
        assert forall|k: int| 0 <= k < e.len() implies (is_digit(#[trigger] e[k]) || e[k]
            == ' ') by {
            if k < t.len() {
                assert(e[k] == t[k]);
                assert(is_digit(t[k]));
            } else if k > t.len() {
                assert(e[k] == rest[k - t.len() - 1]);
            }
        }
    }
}

/// The score store: the content of the score file, or `None` when the
/// file is absent or unreadable.
pub struct ScoreStore {
    content: Option<String>,
}

impl ScoreStore {
    /// The text the store holds, seen as a character sequence.
    pub closed spec fn contents(&self) -> Option<Seq<char>> {
        match self.content {
            Some(s) => Some(s@),
            None => None,
        }
    }

    /// A store whose file does not exist: a valid empty state, not an error.
    pub fn new() -> (r: ScoreStore)
        ensures
            r.contents() is None,
    {
        ScoreStore { content: None }
    }

    /// A store over file content as the caller read it from disk, `None`
    /// when the file was absent or unreadable.
    pub fn from_content(content: Option<String>) -> (r: ScoreStore)
        ensures
            content matches Some(s) ==> r.contents() == Some(s@),
            content is None ==> r.contents() is None,
    {
        ScoreStore { content }
    }

    /// The text to persist: what `save_highscores_and_lines` last stored,
    /// or what the store was created from.
    pub fn text(&self) -> (r: Option<&String>)
        ensures
            match r {
                Some(s) => self.contents() == Some(s@),
                None => self.contents() is None,
            },
    {
        match &self.content {
            Some(s) => Some(s),
            None => None,
        }
    }

    /// Replaces the whole record with the two encoded lines, `highscores`
    /// first, each newline-terminated; nothing of the prior content is
    /// kept. The in-memory replacement always succeeds; a caller that
    /// writes the text to disk reports I/O failure as its own `false`.
    pub fn save_highscores_and_lines(&mut self, highscores: &[u32], number_of_lines: &[u32]) -> (ok:
        bool)
        ensures
            ok,
            final(self).contents() == Some(record_text(highscores@, number_of_lines@)),
    {
        let mut text = slice_to_string(highscores);
        text.append("\n");
        let second = slice_to_string(number_of_lines);
        text.append(second.as_str());
        text.append("\n");
        proof {
            reveal_strlit("\n");
            assert("\n"@ =~= seq!['\n']);
            assert(text@ =~= record_text(highscores@, number_of_lines@));
        }
        self.content = Some(text);
        true
    }

    /// Reads the record out of the stored text: `None` when the file was
    /// absent or unreadable, or when its text does not form exactly two
    /// lines; otherwise the two decoded lists, highscores first.
    pub fn load_highscores_and_lines(&self) -> (r: Option<(Vec<u32>, Vec<u32>)>)
        ensures
            match self.contents() {
                None => r is None,
                Some(s) => match parse_record(s) {
                    None => r is None,
                    Some((hs, ls)) => r matches Some((h, l)) && h@ == hs && l@ == ls,
                },
            },
    {
        match &self.content {
            None => None,
            Some(text) => {
                let s = text.as_str();
                let len = s.unicode_len();
                let end = if len > 0 && s.get_char(len - 1) == '\n' {
                    len - 1
                } else {
                    len
                };
                let ghost t = strip_last_newline(s@);
                proof {
                    assert(t =~= s@.take(end as int));
                    lemma_first_index(t, '\n');
                }
                let mut j: usize = 0;
                let mut found = false;
                while j < end && !found
                    invariant
                        j <= end <= len,
                        len == s@.len(),
                        t == strip_last_newline(s@),
                        t =~= s@.take(end as int),
                        forall|k: int| 0 <= k < j ==> s@[k] != '\n',
                        found ==> j < end && s@[j as int] == '\n',
                    decreases end - j, (if found {
                        0int
                    } else {
                        1int
                    }),
                {
                    if s.get_char(j) == '\n' {
                        found = true;
                    } else {
                        j = j + 1;
                    }
                }
                proof {
                    assert forall|k: int| 0 <= k < j implies t[k] != '\n' by {
                        assert(s@[k] != '\n');
                    }
                }
                if !found {
                    proof {
                        assert(first_index(t, '\n') == t.len());
                    }
                    None
                } else {
                    proof {
                        assert(t[j as int] == s@[j as int]);
                        assert(first_index(t, '\n') == j);
                    }
                    let h = line_to_slice(s.substring_char(0, j));
                    let l = line_to_slice(s.substring_char(j + 1, end));
                    proof {
                        assert(s@.subrange(0, j as int) =~= t.take(j as int));
                        assert(s@.subrange(j + 1, end as int) =~= t.skip(j + 1));
                    }
                    Some((h, l))
                }
            },
        }
    }
}

/// Law: a saved record loads back unchanged. The text `save` stores for
/// `(hs, ls)` parses to exactly `(hs, ls)`: the final newline is the second
/// line's terminator, the only other newline separates the two lines, and
/// each line decodes to the list it encoded.
pub proof fn lemma_save_then_load(hs: Seq<u32>, ls: Seq<u32>)
    ensures
        parse_record(record_text(hs, ls)) == Some((hs, ls)),
{
    let e1 = encode_spec(hs);
    let e2 = encode_spec(ls);
    let text = record_text(hs, ls);
    let t = e1 + seq!['\n'] + e2;
    assert(text.last() == '\n');
    assert(text.drop_last() =~= t);
    lemma_encode_chars(hs);
    lemma_encode_chars(ls);
    let m = e1.len() as int;
    assert(t[m] == '\n');
    assert forall|k: int| 0 <= k < m implies t[k] != '\n' by {
        assert(t[k] == e1[k]);
        assert(is_digit(e1[k]) || e1[k] == ' ');
    }
    lemma_first_index(t, '\n');
    assert(first_index(t, '\n') == m);
    assert(t.take(m) =~= e1);
    assert(t.skip(m + 1) =~= e2);
    lemma_decode_encode(hs);
    lemma_decode_encode(ls);
}

} // verus!
