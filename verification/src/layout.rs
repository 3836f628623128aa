//! The persisted layout: where under the output root each store lives, and
//! under which path each input is kept.
//!
//! The active corpus of a client lives in a directory of its own, named by
//! the number of the client; the solutions of all clients share one
//! directory. Both are plain directories with one file for each input, named
//! by the stable name of the input.

use crate::orchestrator::ClientDescriptor;
use crate::text::decimal;
use crate::text::digits;
use crate::text::joined;
use crate::text::lemma_digits_injective;
use vstd::prelude::*;

verus! {

/// The directory of the active corpus of client `id` under `root`.
pub open spec fn corpus_dir_of(root: Seq<char>, id: nat) -> Seq<char> {
    root + "/queue/"@ + digits(id)
}

/// The directory of the solutions under `root`.
pub open spec fn solutions_dir_of(root: Seq<char>) -> Seq<char> {
    root + "/crashes"@
}

/// The path of the file `name` in the directory `dir`.
pub open spec fn entry_path_of(dir: Seq<char>, name: Seq<char>) -> Seq<char> {
    dir + "/"@ + name
}

/// Clients with different numbers keep their corpora in different
/// directories under the same root.
pub proof fn lemma_corpus_dirs_differ(root: Seq<char>, a: nat, b: nat)
    requires
        a != b,
    ensures
        corpus_dir_of(root, a) != corpus_dir_of(root, b),
{
    let stem = root + "/queue/"@;
    if corpus_dir_of(root, a) == corpus_dir_of(root, b) {
        let whole_a = stem + digits(a);
        let whole_b = stem + digits(b);
        assert(whole_a.len() == stem.len() + digits(a).len());
        assert(whole_b.len() == stem.len() + digits(b).len());
        assert(whole_a.subrange(stem.len() as int, whole_a.len() as int) =~= digits(a));
        assert(whole_b.subrange(stem.len() as int, whole_b.len() as int) =~= digits(b));
        lemma_digits_injective(a, b);
    }
}

/// The directory in which a client keeps its active corpus.
pub fn corpus_dir(root: &str, client: &ClientDescriptor) -> (dir: String)
    ensures
        dir@ == corpus_dir_of(root@, client.id as nat),
{
    let stem = joined(root, "/queue/");
    let number = decimal(client.id as u64);
    joined(stem.as_str(), number.as_str())
}

/// The directory in which all clients keep their solutions.
pub fn solutions_dir(root: &str) -> (dir: String)
    ensures
        dir@ == solutions_dir_of(root@),
{
    joined(root, "/crashes")
}

/// The path under which the input called `name` is kept in `dir`.
pub fn entry_path(dir: &str, name: &str) -> (path: String)
    ensures
        path@ == entry_path_of(dir@, name@),
{
    let stem = joined(dir, "/");
    joined(stem.as_str(), name)
}

} // verus!
