//! The token dictionary: byte strings that the dictionary mutation splices
//! into inputs. It is filled once at start, from tokens harvested from the
//! target or supplied by the user, and only read afterwards.

use libafl::mutators::Tokens;
use vstd::prelude::*;

verus! {

/// The token collection of `libafl`, carried as an opaque value.
#[verifier::external_type_specification]
#[verifier::external_body]
pub struct ExTokens(Tokens);

/// The tokens a collection holds, in the order they were added.
pub uninterp spec fn token_list(tokens: Tokens) -> Seq<Seq<u8>>;

/// `Tokens::new`: a collection without tokens.
#[verifier::external_body]
fn tokens_new() -> (tokens: Tokens)
    ensures
        token_list(tokens) == Seq::<Seq<u8>>::empty(),
{
    Tokens::new()
}

/// `Tokens::add_token`: appends the token unless the collection holds it
/// already, and says whether it did.
#[verifier::external_body]
fn tokens_add(tokens: &mut Tokens, token: &Vec<u8>) -> (added: bool)
    ensures
        added == !token_list(*old(tokens)).contains(token@),
        added ==> token_list(*final(tokens)) == token_list(*old(tokens)).push(token@),
        !added ==> token_list(*final(tokens)) == token_list(*old(tokens)),
{
    tokens.add_token(token)
}

/// `Tokens::len`: the number of tokens held.
#[verifier::external_body]
fn tokens_len(tokens: &Tokens) -> (n: usize)
    ensures
        n == token_list(*tokens).len(),
{
    tokens.len()
}

/// What holds of every dictionary: no token is empty and none occurs twice.
pub open spec fn well_formed(list: Seq<Seq<u8>>) -> bool {
    &&& forall|i: int| 0 <= i < list.len() ==> (#[trigger] list[i]).len() > 0
    &&& forall|i: int, j: int| 0 <= i < j < list.len() ==> list[i] != list[j]
}

/// A dictionary of tokens.
pub struct TokenDictionary {
    tokens: Tokens,
}

impl View for TokenDictionary {
    type V = Seq<Seq<u8>>;

    closed spec fn view(&self) -> Seq<Seq<u8>> {
        token_list(self.tokens)
    }
}

impl TokenDictionary {
    /// The invariant of the dictionary.
    pub open spec fn wf(&self) -> bool {
        well_formed(self@)
    }

    /// A dictionary without tokens.
    pub fn new() -> (dictionary: TokenDictionary)
        ensures
            dictionary.wf(),
            dictionary@ == Seq::<Seq<u8>>::empty(),
    {
        TokenDictionary { tokens: tokens_new() }
    }

    /// Adds a token. An empty token, and one the dictionary holds already,
    /// is not added.
    pub fn add(&mut self, token: &Vec<u8>) -> (added: bool)
        requires
            old(self).wf(),
        ensures
            final(self).wf(),
            added == (token@.len() > 0 && !old(self)@.contains(token@)),
            added ==> final(self)@ == old(self)@.push(token@),
            !added ==> final(self)@ == old(self)@,
    {
        if token.len() == 0 {
            return false;
        }
        let ghost before = self@;
        let added = tokens_add(&mut self.tokens, token);
        proof {
            if added {
                assert forall|i: int, j: int| 0 <= i < j < self@.len() implies self@[i]
                    != self@[j] by {
                    if j == before.len() {
                        assert(before[i] == self@[i]);
                        assert(before.contains(before[i]));
                    } else {
                        assert(before[i] != before[j]);
                    }
                }
            }
        }
        added
    }

    /// Adds every token of `tokens`, in order, and returns how many were new.
    pub fn add_all(&mut self, tokens: &Vec<Vec<u8>>) -> (added: usize)
        requires
            old(self).wf(),
        ensures
            final(self).wf(),
            added <= tokens.len(),
            final(self)@.len() == old(self)@.len() + added,
            forall|i: int| 0 <= i < old(self)@.len() ==> final(self)@[i] == old(self)@[i],
            forall|k: int|
                0 <= k < tokens.len() && (#[trigger] tokens@[k])@.len() > 0 ==> final(self)@.contains(
                    tokens@[k]@,
                ),
    {
        let mut added: usize = 0;
        let mut k: usize = 0;
        while k < tokens.len()
            invariant
                k <= tokens.len(),
                added <= k,
                self.wf(),
                self@.len() == old(self)@.len() + added,
                forall|i: int| 0 <= i < old(self)@.len() ==> self@[i] == old(self)@[i],
                forall|l: int|
                    0 <= l < k && (#[trigger] tokens@[l])@.len() > 0 ==> self@.contains(
                        tokens@[l]@,
                    ),
            decreases tokens.len() - k,
        {
            let ghost before = self@;
            if self.add(&tokens[k]) {
                added = added + 1;
            }
            proof {
                assert forall|l: int|
                    0 <= l < k + 1 && (#[trigger] tokens@[l])@.len() > 0 implies self@.contains(
                    tokens@[l]@,
                ) by {
                    if l < k {
                        let at = choose|at: int| 0 <= at < before.len() && before[at] == tokens@[l]@;
                        assert(self@[at] == tokens@[l]@);
                    } else if !before.contains(tokens@[l]@) {
                        assert(self@[before.len() as int] == tokens@[l]@);
                    } else {
                        let at = choose|at: int| 0 <= at < before.len() && before[at] == tokens@[l]@;
                        assert(self@[at] == tokens@[l]@);
                    }
                }
            }
            k = k + 1;
        }
        added
    }

    /// The number of tokens.
    pub fn len(&self) -> (n: usize)
        ensures
            n == self@.len(),
    {
        tokens_len(&self.tokens)
    }

    /// Whether the dictionary holds no token.
    pub fn is_empty(&self) -> (empty: bool)
        ensures
            empty == (self@.len() == 0),
    {
        tokens_len(&self.tokens) == 0
    }

    /// The collection to hand to the dictionary mutation.
    pub(crate) fn collection(&self) -> (tokens: &Tokens)
        ensures
            token_list(*tokens) == self@,
    {
        &self.tokens
    }
}

/// The dictionary of a client after start-up: the one it already has, if
/// any; else the harvested one, unless that is empty.
pub fn installed(present: Option<TokenDictionary>, harvested: TokenDictionary) -> (kept: Option<
    TokenDictionary,
>)
    requires
        present is Some ==> present->0.wf(),
        harvested.wf(),
    ensures
        present is Some ==> kept == present,
        present is None && harvested@.len() > 0 ==> kept == Some(harvested),
        present is None && harvested@.len() == 0 ==> kept is None,
        kept is Some ==> kept->0.wf(),
{
    match present {
        Some(dictionary) => Some(dictionary),
        None => {
            if harvested.is_empty() {
                None
            } else {
                Some(harvested)
            }
        },
    }
}

} // verus!
