//! Choosing an image for a reply: the classifier (an opaque external model)
//! scores the catalogue's words against the reply, and one image whose
//! words include a randomly chosen strongly-scored word is offered.

use vstd::prelude::*;
use crate::config::{WordImageData, WordImagesConfig};
use crate::strutil::str_eq;

verus! {

/// The mathematical shape of a catalogue entry.
#[verifier::ext_equal]
pub ghost struct WordImageView {
    pub path: Seq<char>,
    pub words: Seq<Seq<char>>,
}

impl View for WordImageData {
    type V = WordImageView;

    open spec fn view(&self) -> WordImageView {
        WordImageView { path: self.path@, words: self.words.deep_view() }
    }
}

impl DeepView for WordImageData {
    type V = WordImageView;

    open spec fn deep_view(&self) -> WordImageView {
        self@
    }
}

/// Relies on rand::random (rand 0.8): a value drawn from the thread-local
/// generator; nothing can be promised of it.
pub assume_specification<T>[ rand::random::<T> ]() -> (r: T)
    where
        rand::distributions::Standard: rand::distributions::Distribution<T>,
;

/// A random index below `n`.
fn pick_index(n: usize) -> (r: usize)
    requires
        n > 0,
    ensures
        r < n,
{
    let x: usize = rand::random::<usize>();
    x % n
}

/// Whether `w` occurs among `ws`.
pub open spec fn contains_word(ws: Seq<Seq<char>>, w: Seq<char>) -> bool {
    exists|i: int| 0 <= i < ws.len() && ws[i] == w
}

/// Whether some catalogue entry's words include `w`.
pub open spec fn catalogue_has(cat: Seq<WordImageView>, w: Seq<char>) -> bool {
    exists|i: int| 0 <= i < cat.len() && contains_word(#[trigger] cat[i].words, w)
}

proof fn lemma_contains_push(ws: Seq<Seq<char>>, x: Seq<char>, w: Seq<char>)
    ensures
        contains_word(ws.push(x), w) <==> (contains_word(ws, w) || w == x),
{
    if contains_word(ws.push(x), w) {
        let i = choose|i: int| 0 <= i < ws.push(x).len() && ws.push(x)[i] == w;
        if i < ws.len() {
            assert(ws[i] == w);
        }
    }
    if contains_word(ws, w) {
        let i = choose|i: int| 0 <= i < ws.len() && ws[i] == w;
        assert(ws.push(x)[i] == w);
    }
    if w == x {
        assert(ws.push(x)[ws.len() as int] == w);
    }
}

proof fn lemma_catalogue_push(cat: Seq<WordImageView>, img: WordImageView, w: Seq<char>)
    ensures
        catalogue_has(cat.push(img), w) <==> (catalogue_has(cat, w) || contains_word(
            img.words,
            w,
        )),
{
    if catalogue_has(cat.push(img), w) {
        let i = choose|i: int| 0 <= i < cat.push(img).len() && contains_word(cat.push(img)[i].words, w);
        if i < cat.len() {
            assert(contains_word(cat[i].words, w));
        }
    }
    if catalogue_has(cat, w) {
        let i = choose|i: int| 0 <= i < cat.len() && contains_word(cat[i].words, w);
        assert(contains_word(cat.push(img)[i].words, w));
    }
    if contains_word(img.words, w) {
        assert(contains_word(cat.push(img)[cat.len() as int].words, w));
    }
}

/// Whether some string of `v` reads `s`.
fn vec_contains_str(v: &Vec<String>, s: &str) -> (r: bool)
    ensures
        r == exists|i: int| 0 <= i < v@.len() && #[trigger] v@[i]@ == s@,
{
    let n = v.len();
    let mut i: usize = 0;
    while i < n
        invariant
            i <= n,
            n == v@.len(),
            forall|j: int| 0 <= j < i ==> #[trigger] v@[j]@ != s@,
        decreases n - i,
    {
        if str_eq(v[i].as_str(), s) {
            return true;
        }
        i += 1;
    }
    false
}

/// `contains_word` over a vector's deep view is the element-wise search.
proof fn lemma_contains_word_vec(v: Vec<String>, w: Seq<char>)
    ensures
        contains_word(v.deep_view(), w) <==> exists|i: int|
            0 <= i < v@.len() && #[trigger] v@[i]@ == w,
{
    if contains_word(v.deep_view(), w) {
        let i = choose|i: int| 0 <= i < v.deep_view().len() && v.deep_view()[i] == w;
        assert(v@[i]@ == w);
    }
    if exists|i: int| 0 <= i < v@.len() && #[trigger] v@[i]@ == w {
        let i = choose|i: int| 0 <= i < v@.len() && #[trigger] v@[i]@ == w;
        assert(v.deep_view()[i] == w);
    }
}

/// The image-selection worker's state: the catalogue of images and their
/// selecting words.  The classifier model itself is the caller's, outside
/// this state.
pub struct WordImage {
    word_images: Vec<WordImageData>,
}

/// Whether catalogue entry `img` shares a word with `strong`.
pub open spec fn entry_matches(img: WordImageView, strong: Seq<Seq<char>>) -> bool {
    exists|j: int, k: int|
        #![trigger img.words[j], strong[k]]
        0 <= j < img.words.len() && 0 <= k < strong.len() && img.words[j] == strong[k]
}

impl WordImage {
    /// The catalogue.
    pub closed spec fn catalogue(&self) -> Seq<WordImageView> {
        self.word_images.deep_view()
    }

    /// A worker over a validated catalogue.
    pub fn new(config: &WordImagesConfig) -> (r: Self)
        ensures
            r.catalogue() == config.word_images.deep_view(),
    {
        let n = config.word_images.len();
        let mut entries: Vec<WordImageData> = Vec::new();
        let mut i: usize = 0;
        while i < n
            invariant
                i <= n,
                n == config.word_images@.len(),
                entries.deep_view() == config.word_images.deep_view().take(i as int),
            decreases n - i,
        {
            let src = &config.word_images[i];
            let entry = WordImageData { path: src.path.clone(), words: src.words.clone() };
            proof {
                assert(entry.words@ =~= src.words@);
                assert(entry.words.deep_view() =~= src.words.deep_view());
                assert(entry@ == config.word_images.deep_view()[i as int]);
            }
            let ghost before = entries@;
            let ghost before_dv = entries.deep_view();
            entries.push(entry);
            proof {
                assert(before_dv.len() == i);
                assert(before.len() == i);
                assert(entries@.len() == i + 1);
                assert(entries.deep_view().len() == entries@.len());
                assert(entries.deep_view() =~~= config.word_images.deep_view().take(
                    i + 1 as int,
                ));
            }
            i += 1;
        }
        proof {
            assert(config.word_images.deep_view().take(n as int) =~= config.word_images.deep_view());
        }
        WordImage { word_images: entries }
    }

    /// Every distinct word of the catalogue, each exactly once: the
    /// candidate labels handed to the classifier.
    pub fn all_words(&self) -> (r: Vec<String>)
        ensures
            forall|a: int, b: int|
                0 <= a < b < r.deep_view().len() ==> r.deep_view()[a] != r.deep_view()[b],
            forall|w: Seq<char>| #[trigger]
                contains_word(r.deep_view(), w) <==> catalogue_has(self.catalogue(), w),
    {
        let mut r: Vec<String> = Vec::new();
        let n = self.word_images.len();
        let mut i: usize = 0;
        proof {
            assert(self.catalogue().take(0) =~= Seq::<WordImageView>::empty());
        }
        while i < n
            invariant
                i <= n,
                n == self.word_images@.len(),
                forall|a: int, b: int|
                    0 <= a < b < r.deep_view().len() ==> r.deep_view()[a] != r.deep_view()[b],
                forall|w: Seq<char>| #[trigger]
                    contains_word(r.deep_view(), w) <==> catalogue_has(
                        self.catalogue().take(i as int),
                        w,
                    ),
            decreases n - i,
        {
            let m = self.word_images[i].words.len();
            let ghost words_i = self.catalogue()[i as int].words;
            let mut j: usize = 0;
            proof {
                assert(words_i.take(0) =~= Seq::<Seq<char>>::empty());
            }
            while j < m
                invariant
                    j <= m,
                    i < n,
                    n == self.word_images@.len(),
                    m == self.word_images@[i as int].words@.len(),
                    words_i == self.catalogue()[i as int].words,
                    m == words_i.len(),
                    forall|a: int, b: int|
                        0 <= a < b < r.deep_view().len() ==> r.deep_view()[a] != r.deep_view()[b],
                    forall|w: Seq<char>| #[trigger]
                        contains_word(r.deep_view(), w) <==> (catalogue_has(
                            self.catalogue().take(i as int),
                            w,
                        ) || contains_word(words_i.take(j as int), w)),
                decreases m - j,
            {
                let w = &self.word_images[i].words[j];
                let ghost r_pre = r.deep_view();
                proof {
                    assert(words_i[j as int] == w@);
                    assert(words_i.take(j + 1 as int) =~= words_i.take(j as int).push(w@));
                }
                proof {
                    lemma_contains_word_vec(r, w@);
                }
                if !vec_contains_str(&r, w.as_str()) {
                    r.push(w.clone());
                    proof {
                        assert(r.deep_view() =~= r_pre.push(w@));
                        assert forall|a: int, b: int|
                            0 <= a < b < r.deep_view().len() implies r.deep_view()[a]
                            != r.deep_view()[b] by {
                            if b == r.deep_view().len() - 1 {
                                assert(r.deep_view()[a] == r_pre[a]);
                                if r_pre[a] == w@ {
                                    assert(contains_word(r_pre, w@));
                                }
                            }
                        }
                        assert forall|ww: Seq<char>| #[trigger]
                            contains_word(r.deep_view(), ww) <==> (catalogue_has(
                                self.catalogue().take(i as int),
                                ww,
                            ) || contains_word(words_i.take(j + 1 as int), ww)) by {
                            lemma_contains_push(r_pre, w@, ww);
                            lemma_contains_push(words_i.take(j as int), w@, ww);
                        }
                    }
                } else {
                    proof {
                        assert forall|ww: Seq<char>| #[trigger]
                            contains_word(r.deep_view(), ww) <==> (catalogue_has(
                                self.catalogue().take(i as int),
                                ww,
                            ) || contains_word(words_i.take(j + 1 as int), ww)) by {
                            lemma_contains_push(words_i.take(j as int), w@, ww);
                        }
                    }
                }
                j += 1;
            }
            proof {
                assert(words_i.take(m as int) =~= words_i);
                assert(self.catalogue().take(i + 1 as int) =~= self.catalogue().take(
                    i as int,
                ).push(self.catalogue()[i as int]));
                assert forall|w: Seq<char>| #[trigger]
                    contains_word(r.deep_view(), w) <==> catalogue_has(
                        self.catalogue().take(i + 1 as int),
                        w,
                    ) by {
                    lemma_catalogue_push(
                        self.catalogue().take(i as int),
                        self.catalogue()[i as int],
                        w,
                    );
                }
            }
            i += 1;
        }
        proof {
            assert(self.catalogue().take(n as int) =~= self.catalogue());
        }
        r
    }

    /// An image for the reply: a word is drawn at random from the strongly
    /// scored ones, and an image whose words include it is drawn at random
    /// in turn.  Whatever the random draws, the offered path belongs to a
    /// catalogue entry sharing a word with `strong_words`; with no strong
    /// word, or none shared with any entry, there is no image; and when
    /// every strong word is in the catalogue, an image is owed whatever the
    /// draws, since the drawn word always has a matching entry.
    pub fn pick_image(&self, strong_words: &Vec<String>) -> (r: Option<String>)
        ensures
            match r {
                Some(p) => exists|i: int|
                    0 <= i < self.catalogue().len() && p@ == #[trigger] self.catalogue()[i].path
                        && entry_matches(self.catalogue()[i], strong_words.deep_view()),
                None => true,
            },
            strong_words.deep_view().len() == 0 ==> r is None,
            (forall|i: int|
                0 <= i < self.catalogue().len() ==> !entry_matches(
                    #[trigger] self.catalogue()[i],
                    strong_words.deep_view(),
                )) ==> r is None,
            (strong_words.deep_view().len() > 0 && (forall|k: int|
                0 <= k < strong_words.deep_view().len() ==> catalogue_has(
                    self.catalogue(),
                    #[trigger] strong_words.deep_view()[k],
                ))) ==> r is Some,
    {
        if strong_words.len() == 0 {
            return None;
        }
        let idx = pick_index(strong_words.len());
        let target = &strong_words[idx];
        let ghost tw = target@;
        proof {
            assert(strong_words.deep_view().len() == strong_words@.len());
            assert(strong_words.deep_view()[idx as int] == tw);
        }

        // the catalogue entries whose words include the chosen one
        let mut candidates: Vec<usize> = Vec::new();
        let n = self.word_images.len();
        let mut i: usize = 0;
        proof {
            assert(self.catalogue().len() == n);
        }
        while i < n
            invariant
                i <= n,
                n == self.word_images@.len(),
                self.catalogue().len() == n,
                idx < strong_words@.len(),
                strong_words.deep_view().len() == strong_words@.len(),
                strong_words.deep_view()[idx as int] == tw,
                target@ == tw,
                forall|a: int|
                    0 <= a < candidates@.len() ==> #[trigger] candidates@[a] < n
                        && entry_matches(
                        self.catalogue()[candidates@[a] as int],
                        strong_words.deep_view(),
                    ),
                // completeness: once some scanned entry held the drawn word,
                // a candidate exists
                (exists|a: int|
                    0 <= a < i && contains_word(#[trigger] self.catalogue()[a].words, tw))
                    ==> candidates@.len() > 0,
            decreases n - i,
        {
            let entry = &self.word_images[i];
            proof {
                assert(*entry == self.word_images@[i as int]);
                assert(self.catalogue()[i as int] == self.word_images@[i as int].deep_view());
                assert(self.catalogue()[i as int].words == entry.words.deep_view());
                lemma_contains_word_vec(entry.words, tw);
            }
            if vec_contains_str(&entry.words, target.as_str()) {
                proof {
                    let words = self.catalogue()[i as int].words;
                    let j = choose|j: int|
                        0 <= j < entry.words@.len() && #[trigger] entry.words@[j]@ == tw;
                    assert(words[j] == tw);
                    assert(strong_words.deep_view()[idx as int] == tw);
                    assert(entry_matches(self.catalogue()[i as int], strong_words.deep_view()));
                }
                candidates.push(i);
            } else {
                proof {
                    assert(!contains_word(self.catalogue()[i as int].words, tw));
                }
            }
            i += 1;
        }
        if candidates.len() == 0 {
            proof {
                if strong_words.deep_view().len() > 0 && (forall|k: int|
                    0 <= k < strong_words.deep_view().len() ==> catalogue_has(
                        self.catalogue(),
                        #[trigger] strong_words.deep_view()[k],
                    )) {
                    assert(catalogue_has(self.catalogue(), tw));
                    let a = choose|a: int|
                        0 <= a < self.catalogue().len() && contains_word(
                            #[trigger] self.catalogue()[a].words,
                            tw,
                        );
                    assert(candidates@.len() > 0);
                    assert(false);
                }
            }
            return None;
        }
        let chosen = candidates[pick_index(candidates.len())];
        let path = self.word_images[chosen].path.clone();
        proof {
            assert(path@ == self.catalogue()[chosen as int].path);
            assert(entry_matches(self.catalogue()[chosen as int], strong_words.deep_view()));
        }
        Some(path)
    }
}

} // verus!
