//! Candidate room names, drawn at random from a list of words.

use rand::rngs::OsRng;
use rand::seq::SliceRandom;
use vstd::pervasive::unreached;
use vstd::prelude::*;

verus! {

/// The pieces of `text` between its newline characters, in order. A text
/// without a newline is one piece; a newline at the very end is followed by
/// an empty last piece.
pub open spec fn lines(text: Seq<char>) -> Seq<Seq<char>>
    decreases text.len(),
{
    if text.len() == 0 {
        seq![Seq::empty()]
    } else {
        let before = lines(text.drop_last());
        if text.last() == '\n' {
            before.push(Seq::empty())
        } else {
            before.drop_last().push(before.last().push(text.last()))
        }
    }
}

/// The pieces put together again, with a newline between each two.
pub open spec fn rejoined(pieces: Seq<Seq<char>>) -> Seq<char>
    decreases pieces.len(),
{
    if pieces.len() == 0 {
        Seq::empty()
    } else if pieces.len() == 1 {
        pieces[0]
    } else {
        rejoined(pieces.drop_last()) + seq!['\n'] + pieces.last()
    }
}

/// The lines of a text are cut at its newlines and nowhere else: no line
/// holds a newline, and the lines with a newline between each two are the
/// text again.
pub proof fn law_lines_are_cut_at_newlines(text: Seq<char>)
    ensures
        lines(text).len() >= 1,
        rejoined(lines(text)) == text,
        forall|i: int| 0 <= i < lines(text).len() ==> !(#[trigger] lines(text)[i]).contains('\n'),
    decreases text.len(),
{
    if text.len() == 0 {
        assert(rejoined(lines(text)) == text);
    } else {
        let shorter = text.drop_last();
        let before = lines(shorter);
        law_lines_are_cut_at_newlines(shorter);
        assert(text == shorter.push(text.last()));
        if text.last() == '\n' {
            let now = before.push(Seq::<char>::empty());
            assert(now.drop_last() == before);
            assert(rejoined(now) == rejoined(before) + seq!['\n'] + Seq::<char>::empty());
            assert(rejoined(now) == text);
            assert forall|i: int|
                0 <= i < now.len() implies !(#[trigger] now[i]).contains('\n') by {
                if i < before.len() {
                    assert(now[i] == before[i]);
                }
            }
        } else {
            let grown = before.last().push(text.last());
            let now = before.drop_last().push(grown);
            assert(now.drop_last() == before.drop_last());
            if before.len() == 1 {
                assert(rejoined(now) == grown);
                assert(rejoined(before) == before[0]);
            } else {
                assert(rejoined(now) == rejoined(before.drop_last()) + seq!['\n'] + grown);
                assert(rejoined(before) == rejoined(before.drop_last()) + seq!['\n']
                    + before.last());
            }
            assert(rejoined(now) == rejoined(before).push(text.last()));
            assert forall|i: int|
                0 <= i < now.len() implies !(#[trigger] now[i]).contains('\n') by {
                if i < now.len() - 1 {
                    assert(now[i] == before[i]);
                } else {
                    let last = before[before.len() - 1];
                    assert(!last.contains('\n'));
                    if grown.contains('\n') {
                        let k = choose|k: int| 0 <= k < grown.len() && grown[k] == '\n';
                        if k < last.len() {
                            assert(last[k] == '\n');
                        }
                    }
                }
            }
        }
    }
}

/// The texts of `strings`, in order.
pub open spec fn texts(strings: Seq<String>) -> Seq<Seq<char>> {
    strings.map_values(|s: String| s@)
}

/// Those of `candidates` that can name a room: the ones that are not empty.
pub open spec fn usable(candidates: Seq<Seq<char>>) -> Seq<Seq<char>> {
    candidates.filter(|w: Seq<char>| w.len() > 0)
}

/// Splits `text` at its newline characters.
pub fn split_lines(text: &str) -> (pieces: Vec<String>)
    ensures
        texts(pieces@) == lines(text@),
{
    let mut done: Vec<String> = Vec::new();
    let mut current = String::new();
    for c in it: text.chars()
        invariant
            it.seq() == text@,
            texts(done@).push(current@) == lines(text@.take(it.index())),
    {
        proof {
            let read = text@.take(it.index() + 1);
            assert(read.drop_last() == text@.take(it.index()));
            assert(read.last() == c);
            assert(texts(done@).push(current@).drop_last() == texts(done@));
        }
        if c == '\n' {
            proof {
                assert(texts(done@.push(current)) == texts(done@).push(current@));
            }
            done.push(current);
            current = String::new();
        } else {
            current.push(c);
        }
    }
    proof {
        assert(text@.take(text@.len() as int) == text@);
        assert(texts(done@.push(current)) == texts(done@).push(current@));
    }
    done.push(current);
    done
}

/// A list of words to name rooms after. It holds at least one word and no
/// empty one.
pub struct WordList {
    words: Vec<String>,
}

impl View for WordList {
    type V = Seq<Seq<char>>;

    closed spec fn view(&self) -> Seq<Seq<char>> {
        texts(self.words@)
    }
}

impl WordList {
    #[verifier::type_invariant]
    spec fn well_formed(self) -> bool {
        &&& self.words@.len() > 0
        &&& forall|i: int| 0 <= i < self.words@.len() ==> (#[trigger] self.words@[i])@.len() > 0
    }

    /// Keeps the non-empty `candidates`, in their order. `None` when none is left.
    pub fn new(candidates: Vec<String>) -> (list: Option<WordList>)
        ensures
            match list {
                Some(list) => list@ == usable(texts(candidates@)),
                None => usable(texts(candidates@)).len() == 0,
            },
    {
        let mut kept: Vec<String> = Vec::new();
        let mut i: usize = 0;
        while i < candidates.len()
            invariant
                i <= candidates.len(),
                texts(kept@) == usable(texts(candidates@).take(i as int)),
                forall|k: int| 0 <= k < kept@.len() ==> (#[trigger] kept@[k])@.len() > 0,
            decreases candidates.len() - i,
        {
            proof {
                let seen = texts(candidates@).take(i as int);
                assert(texts(candidates@).take(i + 1) == seen.push(candidates@[i as int]@));
                seen.lemma_filter_push(candidates@[i as int]@, |w: Seq<char>| w.len() > 0);
            }
            if !candidates[i].as_str().is_empty() {
                let word = candidates[i].clone();
                proof {
                    assert(texts(kept@.push(word)) == texts(kept@).push(word@));
                }
                kept.push(word);
            }
            i = i + 1;
        }
        proof {
            assert(texts(candidates@).take(candidates@.len() as int) == texts(candidates@));
        }
        if kept.len() == 0 {
            None
        } else {
            Some(WordList { words: kept })
        }
    }

    /// The non-empty lines of `text`, in their order. `None` when `text` has none.
    pub fn from_text(text: &str) -> (list: Option<WordList>)
        ensures
            match list {
                Some(list) => list@ == usable(lines(text@)),
                None => usable(lines(text@)).len() == 0,
            },
    {
        WordList::new(split_lines(text))
    }

    /// Number of words.
    pub fn len(&self) -> (count: usize)
        ensures
            count == self@.len(),
            count > 0,
    {
        proof {
            use_type_invariant(self);
        }
        self.words.len()
    }
}

/// Calls rand's `SliceRandom::choose` on `words` with the operating system's
/// generator `OsRng`. The source of `choose` returns `None` for an empty
/// slice and otherwise a reference to the element at an index it draws below
/// the length. Which element comes back is left open. `OsRng` aborts if the
/// operating system cannot supply random bytes.
#[verifier::external_body]
fn choose_word(words: &Vec<String>) -> (word: Option<&String>)
    ensures
        word is None <==> words@.len() == 0,
        word matches Some(w) ==> words@.contains(*w),
{
    words.choose(&mut OsRng)
}

/// A candidate name drawn from `words`. Nothing is known here of which rooms
/// are live: whoever creates the room checks the candidate.
pub fn generate_room_name(words: &WordList) -> (name: String)
    ensures
        words@.contains(name@),
        name@.len() > 0,
{
    proof {
        use_type_invariant(words);
    }
    match choose_word(&words.words) {
        Some(word) => {
            proof {
                let i = choose|i: int| 0 <= i < words.words@.len() && words.words@[i] == *word;
                assert(words@[i] == word@);
            }
            word.clone()
        },
        None => unreached(),
    }
}

/// `count` candidate names, each drawn from `words` on its own.
pub fn draw_candidates(words: &WordList, count: usize) -> (candidates: Vec<String>)
    ensures
        candidates@.len() == count,
        forall|i: int|
            0 <= i < count ==> {
                &&& words@.contains((#[trigger] candidates@[i])@)
                &&& candidates@[i]@.len() > 0
            },
{
    let mut candidates: Vec<String> = Vec::new();
    while candidates.len() < count
        invariant
            candidates@.len() <= count,
            forall|i: int|
                0 <= i < candidates@.len() ==> {
                    &&& words@.contains((#[trigger] candidates@[i])@)
                    &&& candidates@[i]@.len() > 0
                },
        decreases count - candidates@.len(),
    {
        candidates.push(generate_room_name(words));
    }
    candidates
}

} // verus!
