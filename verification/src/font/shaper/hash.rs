//! Position-independent hash of a run's content.
//!
//! The hash covers each code point with its cluster index relative to the
//! run's start, then the run's length in cells and its font.
use crate::rapid::{
    hasher_finish, hasher_new, hasher_words, hasher_write_u32, hasher_write_u64, rapid_digest,
};
use rapidhash::fast::RapidHasher;
use vstd::prelude::*;

verus! {

/// The words that a run's code points, given with their relative clusters,
/// contribute to its hash.
pub open spec fn content_words(content: Seq<(u32, u32)>) -> Seq<(u8, u64)>
    decreases content.len(),
{
    if content.len() == 0 {
        Seq::empty()
    } else {
        content_words(content.drop_last()).push((32u8, content.last().0 as u64)).push(
            (32u8, content.last().1 as u64),
        )
    }
}

/// The hash of a run with the given content, length in cells and font.
pub open spec fn run_hash(content: Seq<(u32, u32)>, run_length: u32, font_key: u64) -> u64 {
    rapid_digest(
        usize::BITS,
        content_words(content).push((32u8, run_length as u64)).push((64u8, font_key)),
    )
}

proof fn lemma_content_words_len(content: Seq<(u32, u32)>)
    ensures
        content_words(content).len() == 2 * content.len(),
    decreases content.len(),
{
    if content.len() > 0 {
        lemma_content_words_len(content.drop_last());
    }
}

/// The hash of a run is the digest of exactly these words: for each code point
/// the code point and its cluster, then the length and the font.
pub proof fn law_hash_covers_the_run(
    content: Seq<(u32, u32)>,
    run_length: u32,
    font_key: u64,
    words: Seq<(u8, u64)>,
)
    requires
        words.len() == 2 * content.len() + 2,
        forall|k: int|
            0 <= k < content.len() ==> words[2 * k] == (32u8, (#[trigger] content[k]).0 as u64)
                && words[2 * k + 1] == (32u8, content[k].1 as u64),
        words[2 * content.len() as int] == (32u8, run_length as u64),
        words[2 * content.len() as int + 1] == (64u8, font_key),
    ensures
        run_hash(content, run_length, font_key) == rapid_digest(usize::BITS, words),
{
    let n = content.len() as int;
    lemma_words_of_content(content, words.take(2 * n));
    assert(words =~= content_words(content).push((32u8, run_length as u64)).push((64u8, font_key)));
}

proof fn lemma_words_of_content(content: Seq<(u32, u32)>, words: Seq<(u8, u64)>)
    requires
        words.len() == 2 * content.len(),
        forall|k: int|
            0 <= k < content.len() ==> words[2 * k] == (32u8, (#[trigger] content[k]).0 as u64)
                && words[2 * k + 1] == (32u8, content[k].1 as u64),
    ensures
        words == content_words(content),
    decreases content.len(),
{
    let n = content.len() as int;
    if n > 0 {
        let short = content.drop_last();
        assert forall|k: int| 0 <= k < short.len() implies words.take(2 * n - 2)[2 * k] == (
            32u8,
            (#[trigger] short[k]).0 as u64,
        ) && words.take(2 * n - 2)[2 * k + 1] == (32u8, short[k].1 as u64) by {
            assert(short[k] == content[k]);
        }
        lemma_words_of_content(short, words.take(2 * n - 2));
        assert(content[n - 1] == content.last());
        assert(words =~= content_words(content));
    } else {
        assert(words =~= content_words(content));
    }
}

/// What is hashed tells runs apart: two runs that contribute the same words
/// have the same code points at the same relative clusters, the same length
/// and the same font.
pub proof fn law_words_determine_run(
    a: Seq<(u32, u32)>,
    a_length: u32,
    a_font: u64,
    b: Seq<(u32, u32)>,
    b_length: u32,
    b_font: u64,
)
    requires
        content_words(a).push((32u8, a_length as u64)).push((64u8, a_font)) == content_words(
            b,
        ).push((32u8, b_length as u64)).push((64u8, b_font)),
    ensures
        a == b,
        a_length == b_length,
        a_font == b_font,
{
    let wa = content_words(a).push((32u8, a_length as u64));
    let wb = content_words(b).push((32u8, b_length as u64));
    let fa = wa.push((64u8, a_font));
    let fb = wb.push((64u8, b_font));
    assert(fa.last() == fb.last());
    assert(fa.drop_last() =~= wa && fb.drop_last() =~= wb);
    assert(wa.last() == wb.last());
    assert(wa.drop_last() =~= content_words(a) && wb.drop_last() =~= content_words(b));
    lemma_words_determine_content(a, b);
}

proof fn lemma_words_determine_content(a: Seq<(u32, u32)>, b: Seq<(u32, u32)>)
    requires
        content_words(a) == content_words(b),
    ensures
        a == b,
    decreases a.len(),
{
    lemma_content_words_len(a);
    lemma_content_words_len(b);
    if a.len() > 0 {
        let wa = content_words(a.drop_last());
        let wb = content_words(b.drop_last());
        let n = content_words(a).len() as int;
        assert(content_words(a)[n - 1] == content_words(b)[n - 1]);
        assert(content_words(a)[n - 2] == content_words(b)[n - 2]);
        assert(content_words(a).take(n - 2) =~= wa);
        assert(content_words(b).take(n - 2) =~= wb);
        lemma_words_determine_content(a.drop_last(), b.drop_last());
        assert(a =~= a.drop_last().push(a.last()));
        assert(b =~= b.drop_last().push(b.last()));
    } else {
        assert(a =~= b);
    }
}

/// Accumulates a run's content into its hash.
pub struct RunHasher {
    inner: RapidHasher<'static>,
    content: Ghost<Seq<(u32, u32)>>,
}

impl RunHasher {
    /// The code points added so far, with their relative clusters.
    pub closed spec fn content(&self) -> Seq<(u32, u32)> {
        self.content@
    }

    /// The hasher has taken exactly the content.
    pub closed spec fn wf(&self) -> bool {
        hasher_words(self.inner) == content_words(self.content@)
    }

    /// A hasher that has taken nothing.
    pub fn new() -> (hasher: RunHasher)
        ensures
            hasher.wf(),
            hasher.content() == Seq::<(u32, u32)>::empty(),
    {
        let inner = hasher_new();
        assert(hasher_words(inner) =~= content_words(Seq::empty()));
        RunHasher { inner, content: Ghost(Seq::empty()) }
    }

    /// Adds a code point and its cluster relative to the run's start.
    pub fn add_codepoint(&mut self, codepoint: u32, relative_cluster: u32)
        requires
            old(self).wf(),
        ensures
            final(self).wf(),
            final(self).content() == old(self).content().push((codepoint, relative_cluster)),
    {
        hasher_write_u32(&mut self.inner, codepoint);
        hasher_write_u32(&mut self.inner, relative_cluster);
        proof {
            let before = self.content@;
            assert(before.push((codepoint, relative_cluster)).drop_last() =~= before);
            self.content@ = before.push((codepoint, relative_cluster));
        }
    }

    /// Adds the run's length and font and gives the hash.
    pub fn finish(self, run_length: u32, font_key: u64) -> (hash: u64)
        requires
            self.wf(),
        ensures
            hash == run_hash(self.content(), run_length, font_key),
    {
        let mut inner = self.inner;
        hasher_write_u32(&mut inner, run_length);
        hasher_write_u64(&mut inner, font_key);
        hasher_finish(&inner)
    }
}

impl Default for RunHasher {
    fn default() -> (hasher: RunHasher)
        ensures
            hasher.wf(),
            hasher.content() == Seq::<(u32, u32)>::empty(),
    {
        RunHasher::new()
    }
}

} // verus!
