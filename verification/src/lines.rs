//! Text cut into lines, lines cut into words, and words looked for in
//! lines.

use vstd::prelude::*;

verus! {

/// The byte is white space: a blank, a tabulator, or one of the bytes that
/// end or feed a line.
pub open spec fn is_space(b: u8) -> bool {
    b == 32 || (9 <= b && b <= 13)
}

/// The contents of a list of byte strings.
pub open spec fn texts(v: Seq<Vec<u8>>) -> Seq<Seq<u8>> {
    Seq::new(v.len(), |i: int| v[i]@)
}

/// What has been read so far: the pieces that are complete, and the piece
/// that is being read.
pub struct Scan {
    pub done: Seq<Seq<u8>>,
    pub current: Seq<u8>,
}

/// `done` with `current` as one more piece, unless `current` is empty.
pub open spec fn closed(done: Seq<Seq<u8>>, current: Seq<u8>) -> Seq<Seq<u8>> {
    if current.len() > 0 {
        done.push(current)
    } else {
        done
    }
}

/// The words in the first `n` bytes of `s`: white space ends a word, any
/// other byte goes on with it.
pub open spec fn scan_words(s: Seq<u8>, n: nat) -> Scan
    decreases n,
{
    if n == 0 {
        Scan { done: Seq::empty(), current: Seq::empty() }
    } else {
        let before = scan_words(s, (n - 1) as nat);
        if is_space(s[n - 1]) {
            Scan { done: closed(before.done, before.current), current: Seq::empty() }
        } else {
            Scan { done: before.done, current: before.current.push(s[n - 1]) }
        }
    }
}

/// The words of `s`: the longest runs of bytes that are no white space, in
/// their order.
pub open spec fn words(s: Seq<u8>) -> Seq<Seq<u8>> {
    let end = scan_words(s, s.len());
    closed(end.done, end.current)
}

/// `line` without the carriage return that it ends in, if it does.
pub open spec fn without_return(line: Seq<u8>) -> Seq<u8> {
    if line.len() > 0 && line.last() == 13 {
        line.drop_last()
    } else {
        line
    }
}

/// The lines in the first `n` bytes of `s`: a line feed ends a line, which
/// then loses the carriage return before the line feed.
pub open spec fn scan_lines(s: Seq<u8>, n: nat) -> Scan
    decreases n,
{
    if n == 0 {
        Scan { done: Seq::empty(), current: Seq::empty() }
    } else {
        let before = scan_lines(s, (n - 1) as nat);
        if s[n - 1] == 10 {
            Scan { done: before.done.push(without_return(before.current)), current: Seq::empty() }
        } else {
            Scan { done: before.done, current: before.current.push(s[n - 1]) }
        }
    }
}

/// The lines of `s`. What stands behind the last line feed is a line too,
/// unless it is empty, and keeps a carriage return at its end.
pub open spec fn lines(s: Seq<u8>) -> Seq<Seq<u8>> {
    let end = scan_lines(s, s.len());
    closed(end.done, end.current)
}

/// `key` stands in `s` at place `i`.
pub open spec fn occurs_at(s: Seq<u8>, key: Seq<u8>, i: int) -> bool {
    0 <= i && i + key.len() <= s.len() && s.subrange(i, i + key.len()) == key
}

/// `key` stands somewhere in `s`.
pub open spec fn contains(s: Seq<u8>, key: Seq<u8>) -> bool {
    exists|i: int| occurs_at(s, key, i)
}

/// `w` is a word: not empty, and free of white space.
pub open spec fn is_word(w: Seq<u8>) -> bool {
    w.len() > 0 && forall|j: int| 0 <= j < w.len() ==> !is_space(#[trigger] w[j])
}

/// Every piece is a word.
pub open spec fn all_words(pieces: Seq<Seq<u8>>) -> bool {
    forall|i: int| 0 <= i < pieces.len() ==> is_word(#[trigger] pieces[i])
}

/// While a text is read, what is complete are words, and what is being
/// read is free of white space.
proof fn lemma_scan_words(s: Seq<u8>, n: nat)
    requires
        n <= s.len(),
    ensures
        all_words(scan_words(s, n).done),
        forall|j: int|
            0 <= j < scan_words(s, n).current.len() ==> !is_space(
                #[trigger] scan_words(s, n).current[j],
            ),
    decreases n,
{
    if n > 0 {
        lemma_scan_words(s, (n - 1) as nat);
        let before = scan_words(s, (n - 1) as nat);
        let after = scan_words(s, n);
        if is_space(s[n - 1]) {
            if before.current.len() > 0 {
                assert(is_word(before.current));
                assert forall|i: int| 0 <= i < after.done.len() implies is_word(
                    #[trigger] after.done[i],
                ) by {
                    if i < before.done.len() {
                        assert(after.done[i] == before.done[i]);
                    }
                }
            }
        } else {
            assert forall|j: int| 0 <= j < after.current.len() implies !is_space(
                #[trigger] after.current[j],
            ) by {
                if j < before.current.len() {
                    assert(after.current[j] == before.current[j]);
                }
            }
        }
    }
}

/// No word of a text is empty, and none holds white space.
pub proof fn lemma_words_are_words(s: Seq<u8>)
    ensures
        all_words(words(s)),
{
    lemma_scan_words(s, s.len());
    let end = scan_words(s, s.len());
    if end.current.len() > 0 {
        assert(is_word(end.current));
        assert forall|i: int| 0 <= i < words(s).len() implies is_word(#[trigger] words(s)[i]) by {
            if i < end.done.len() {
                assert(words(s)[i] == end.done[i]);
            }
        }
    }
}

/// Cuts a text into its words.
pub fn split_words(s: &[u8]) -> (r: Vec<Vec<u8>>)
    ensures
        texts(r@) == words(s@),
{
    let mut done: Vec<Vec<u8>> = Vec::new();
    let mut current: Vec<u8> = Vec::new();
    let mut i: usize = 0;
    assert(texts(done@) =~= Seq::<Seq<u8>>::empty());
    while i < s.len()
        invariant
            i <= s.len(),
            texts(done@) == scan_words(s@, i as nat).done,
            current@ == scan_words(s@, i as nat).current,
        decreases s.len() - i,
    {
        let b = s[i];
        if b == 32 || (9 <= b && b <= 13) {
            if current.len() > 0 {
                let ghost before = texts(done@);
                let ghost word = current@;
                done.push(current);
                current = Vec::new();
                assert(texts(done@) =~= before.push(word));
            }
        } else {
            current.push(b);
        }
        i = i + 1;
    }
    if current.len() > 0 {
        let ghost before = texts(done@);
        let ghost word = current@;
        done.push(current);
        assert(texts(done@) =~= before.push(word));
    }
    done
}

/// Cuts a text into its lines.
pub fn split_lines(s: &[u8]) -> (r: Vec<Vec<u8>>)
    ensures
        texts(r@) == lines(s@),
{
    let mut done: Vec<Vec<u8>> = Vec::new();
    let mut current: Vec<u8> = Vec::new();
    let mut i: usize = 0;
    assert(texts(done@) =~= Seq::<Seq<u8>>::empty());
    while i < s.len()
        invariant
            i <= s.len(),
            texts(done@) == scan_lines(s@, i as nat).done,
            current@ == scan_lines(s@, i as nat).current,
        decreases s.len() - i,
    {
        let b = s[i];
        if b == 10 {
            let ghost before = texts(done@);
            let ghost line = without_return(current@);
            let n = current.len();
            if n > 0 && current[n - 1] == 13 {
                current.pop();
            }
            assert(current@ =~= line);
            done.push(current);
            current = Vec::new();
            assert(texts(done@) =~= before.push(line));
        } else {
            current.push(b);
        }
        i = i + 1;
    }
    if current.len() > 0 {
        let ghost before = texts(done@);
        let ghost line = current@;
        done.push(current);
        assert(texts(done@) =~= before.push(line));
    }
    done
}

/// Whether `key` stands in `s` at place `i`.
fn matches_at(s: &[u8], key: &[u8], i: usize) -> (r: bool)
    requires
        i + key@.len() <= s@.len(),
    ensures
        r == occurs_at(s@, key@, i as int),
{
    let n = s.len();
    let mut j: usize = 0;
    while j < key.len()
        invariant
            j <= key@.len(),
            n == s@.len(),
            i + key@.len() <= n,
            forall|k: int| 0 <= k < j ==> s@[i + k] == key@[k],
        decreases key.len() - j,
    {
        if s[i + j] != key[j] {
            assert(s@.subrange(i as int, i + key@.len())[j as int] != key@[j as int]);
            return false;
        }
        j = j + 1;
    }
    assert(s@.subrange(i as int, i + key@.len()) =~= key@);
    true
}

/// Whether `key` stands somewhere in `s`.
pub fn find(s: &[u8], key: &[u8]) -> (r: bool)
    ensures
        r == contains(s@, key@),
{
    if key.len() > s.len() {
        return false;
    }
    let last = s.len() - key.len();
    let mut i: usize = 0;
    while i < last
        invariant
            i <= last,
            last == s@.len() - key@.len(),
            forall|k: int| 0 <= k < i ==> !occurs_at(s@, key@, k),
        decreases last - i,
    {
        if matches_at(s, key, i) {
            return true;
        }
        i = i + 1;
    }
    matches_at(s, key, last)
}

} // verus!
