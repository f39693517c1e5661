//! Sets of words, and the words that are never taken from captions.
use vstd::prelude::*;

use crate::text::same_text;
#[allow(unused_imports)]
use crate::text::{lemma_texts_push, texts};

verus! {

/// A set of words.
#[derive(Debug)]
pub struct WordSet {
    words: Vec<String>,
}

impl View for WordSet {
    type V = Set<Seq<char>>;

    closed spec fn view(&self) -> Set<Seq<char>> {
        texts(self.words@).to_set()
    }
}

impl WordSet {
    /// The empty set.
    pub fn new() -> (r: WordSet)
        ensures
            r@ == Set::<Seq<char>>::empty(),
    {
        let r = WordSet { words: Vec::new() };
        assert(r@ =~= Set::empty());
        r
    }

    /// Whether the set has this word.
    pub fn contains(&self, word: &str) -> (r: bool)
        ensures
            r == self@.contains(word@),
    {
        let mut i: usize = 0;
        while i < self.words.len()
            invariant
                i <= self.words@.len(),
                forall|k: int| 0 <= k < i ==> #[trigger] texts(self.words@)[k] != word@,
            decreases self.words@.len() - i,
        {
            assert(texts(self.words@)[i as int] == self.words@[i as int]@);
            if same_text(self.words[i].as_str(), word) {
                return true;
            }
            i += 1;
        }
        false
    }

    /// Adds a word.
    pub fn insert(&mut self, word: &str)
        ensures
            final(self)@ == old(self)@.insert(word@),
    {
        if !self.contains(word) {
            let w = word.to_string();
            proof {
                lemma_texts_push(self.words@, w);
                texts(self.words@).lemma_push_to_set_commute(w@);
            }
            self.words.push(w);
        } else {
            assert(self@.insert(word@) =~= self@);
        }
    }
}

/// Common words: a caption word that is one of them replaces nothing.
pub open spec fn stopword_set() -> Set<Seq<char>> {
    set![
        "a"@, "an"@, "and"@, "are"@, "as"@, "at"@, "be"@, "been"@, "being"@, "but"@, "by"@,
        "can"@, "could"@, "did"@, "do"@, "does"@, "for"@, "from"@, "had"@, "has"@, "have"@,
        "he"@, "her"@, "here"@, "hers"@, "him"@, "his"@, "how"@, "i"@, "if"@, "in"@, "into"@,
        "is"@, "it"@, "its"@, "just"@, "let"@, "lets"@, "me"@, "mine"@, "my"@, "no"@, "not"@,
        "now"@, "of"@, "on"@, "or"@, "our"@, "ours"@, "out"@, "over"@, "own"@, "she"@, "should"@,
        "so"@, "some"@, "than"@, "that"@, "the"@, "their"@, "theirs"@, "them"@, "then"@,
        "there"@, "these"@, "they"@, "this"@, "those"@, "through"@, "to"@, "too"@, "under"@,
        "until"@, "up"@, "us"@, "very"@, "was"@, "we"@, "were"@, "what"@, "when"@, "where"@,
        "which"@, "while"@, "who"@, "whom"@, "why"@, "will"@, "with"@, "would"@, "yes"@, "you"@,
        "your"@, "yours"@,
    ]
}

/// The common words.
pub fn stopwords() -> (r: WordSet)
    ensures
        r@ == stopword_set(),
{
    let mut r = WordSet::new();
    r.insert("a");
    r.insert("an");
    r.insert("and");
    r.insert("are");
    r.insert("as");
    r.insert("at");
    r.insert("be");
    r.insert("been");
    r.insert("being");
    r.insert("but");
    r.insert("by");
    r.insert("can");
    r.insert("could");
    r.insert("did");
    r.insert("do");
    r.insert("does");
    r.insert("for");
    r.insert("from");
    r.insert("had");
    r.insert("has");
    r.insert("have");
    r.insert("he");
    r.insert("her");
    r.insert("here");
    r.insert("hers");
    r.insert("him");
    r.insert("his");
    r.insert("how");
    r.insert("i");
    r.insert("if");
    r.insert("in");
    r.insert("into");
    r.insert("is");
    r.insert("it");
    r.insert("its");
    r.insert("just");
    r.insert("let");
    r.insert("lets");
    r.insert("me");
    r.insert("mine");
    r.insert("my");
    r.insert("no");
    r.insert("not");
    r.insert("now");
    r.insert("of");
    r.insert("on");
    r.insert("or");
    r.insert("our");
    r.insert("ours");
    r.insert("out");
    r.insert("over");
    r.insert("own");
    r.insert("she");
    r.insert("should");
    r.insert("so");
    r.insert("some");
    r.insert("than");
    r.insert("that");
    r.insert("the");
    r.insert("their");
    r.insert("theirs");
    r.insert("them");
    r.insert("then");
    r.insert("there");
    r.insert("these");
    r.insert("they");
    r.insert("this");
    r.insert("those");
    r.insert("through");
    r.insert("to");
    r.insert("too");
    r.insert("under");
    r.insert("until");
    r.insert("up");
    r.insert("us");
    r.insert("very");
    r.insert("was");
    r.insert("we");
    r.insert("were");
    r.insert("what");
    r.insert("when");
    r.insert("where");
    r.insert("which");
    r.insert("while");
    r.insert("who");
    r.insert("whom");
    r.insert("why");
    r.insert("will");
    r.insert("with");
    r.insert("would");
    r.insert("yes");
    r.insert("you");
    r.insert("your");
    r.insert("yours");
    r
}

} // verus!
