//! Undo actions: a tool result declares how to reverse itself.
//!
//! Every mutation arrives with its own inverse. `Irreversible` is kept apart
//! from an empty list: "this call made no changes" and "this call cannot be
//! taken back" are different facts.

use vstd::prelude::*;

use crate::text::{chars_eq, chars_of, string_of};

verus! {

/// One step needed to reverse a tool call.
#[derive(Debug, Clone, PartialEq, Eq)]
pub enum UndoAction {
    /// Put a file back to its pre-call content. `expected_post_hash` guards
    /// against clobbering a change made after the call.
    RestoreFile { path: String, expected_post_hash: Option<String> },
    /// Remove a file the call created.
    DeleteCreatedFile { path: String },
    /// Remove directories the call created, deepest first.
    DeleteCreatedDirs { dirs: Vec<String> },
    /// Put back a file the call deleted.
    RecreateFile { path: String, content: String, expected_post_hash: Option<String> },
    /// The call changed something that cannot be restored.
    Irreversible { reason: String },
}

/// Reserved meta key under which a tool declares its reverse steps.
pub const META_KEY: &'static str = "goose.undoActions";

/// The path an action touches when it touches exactly one.
pub open spec fn single_path(a: UndoAction) -> Option<Seq<char>> {
    match a {
        UndoAction::RestoreFile { path, .. } => Some(path@),
        UndoAction::DeleteCreatedFile { path } => Some(path@),
        UndoAction::RecreateFile { path, .. } => Some(path@),
        _ => None,
    }
}

impl UndoAction {
    pub fn restore(path: &str, expected_post_hash: Option<String>) -> (r: Self)
        ensures
            r matches UndoAction::RestoreFile { path: p, expected_post_hash: h } && p@ == path@
                && h == expected_post_hash,
    {
        UndoAction::RestoreFile { path: string_of(chars_of(path).as_slice()), expected_post_hash }
    }

    pub fn delete_created(path: &str) -> (r: Self)
        ensures
            r matches UndoAction::DeleteCreatedFile { path: p } && p@ == path@,
    {
        UndoAction::DeleteCreatedFile { path: string_of(chars_of(path).as_slice()) }
    }

    pub fn irreversible(reason: &str) -> (r: Self)
        ensures
            r matches UndoAction::Irreversible { reason: m } && m@ == reason@,
    {
        UndoAction::Irreversible { reason: string_of(chars_of(reason).as_slice()) }
    }

    /// The path this action touches, when it touches exactly one.
    pub fn path(&self) -> (r: Option<&str>)
        ensures
            r is Some == single_path(*self) is Some,
            r matches Some(p) ==> single_path(*self) == Some(p@),
    {
        match self {
            UndoAction::RestoreFile { path, .. } => Some(path.as_str()),
            UndoAction::DeleteCreatedFile { path } => Some(path.as_str()),
            UndoAction::RecreateFile { path, .. } => Some(path.as_str()),
            UndoAction::DeleteCreatedDirs { .. } => None,
            UndoAction::Irreversible { .. } => None,
        }
    }
}

/// The set of steps that reverse one tool call.
#[derive(Debug, Clone, PartialEq, Eq)]
pub struct UndoActions(Vec<UndoAction>);

impl View for UndoActions {
    type V = Seq<UndoAction>;

    closed spec fn view(&self) -> Seq<UndoAction> {
        self.0@
    }
}

/// The guarded restores among `acts[..n]` whose file no longer has the hash
/// recorded when the call completed; `hs[i]` is the current hash of action
/// `i`'s file (`None`: the file is gone).
pub open spec fn conflicts_upto(acts: Seq<UndoAction>, hs: Seq<Option<String>>, n: int) -> Seq<
    Seq<char>,
>
    decreases n,
{
    if n <= 0 {
        Seq::<Seq<char>>::empty()
    } else {
        let prev = conflicts_upto(acts, hs, n - 1);
        match acts[n - 1] {
            UndoAction::RestoreFile { path, expected_post_hash: Some(expected) } => {
                if hs[n - 1] matches Some(actual) && actual@ == expected@ {
                    prev
                } else {
                    prev.push(path@)
                }
            },
            _ => prev,
        }
    }
}

/// Action `a` is a restore carrying a hash guard.
pub open spec fn is_guarded_restore(a: UndoAction) -> bool {
    a matches UndoAction::RestoreFile { expected_post_hash: Some(_), .. }
}

impl UndoActions {
    pub fn none() -> (r: Self)
        ensures
            r@ == Seq::<UndoAction>::empty(),
    {
        UndoActions(Vec::new())
    }

    pub fn new(actions: Vec<UndoAction>) -> (r: Self)
        ensures
            r@ == actions@,
    {
        UndoActions(actions)
    }

    pub fn push(&mut self, action: UndoAction)
        ensures
            final(self)@ == old(self)@.push(action),
    {
        self.0.push(action);
    }

    pub fn is_empty(&self) -> (r: bool)
        ensures
            r == (self@.len() == 0),
    {
        self.0.len() == 0
    }

    pub fn len(&self) -> (r: usize)
        ensures
            r == self@.len(),
    {
        self.0.len()
    }

    /// The actions, in order.
    pub fn iter(&self) -> (r: std::slice::Iter<'_, UndoAction>)
        ensures
            vstd::std_specs::slice::into_iter_elts(r) == self@,
    {
        let sl = self.0.as_slice();
        let it = sl.iter();
        proof {
            vstd::std_specs::slice::axiom_spec_slice_iter(sl);
        }
        it
    }

    /// True when at least one step cannot be reversed.
    pub fn is_partially_irreversible(&self) -> (r: bool)
        ensures
            r == exists|i: int| 0 <= i < self@.len() && (#[trigger] self@[i]) is Irreversible,
    {
        let mut k: usize = 0;
        while k < self.0.len()
            invariant
                k <= self.0@.len(),
                forall|i: int| 0 <= i < k ==> !((#[trigger] self.0@[i]) is Irreversible),
            decreases self.0@.len() - k,
        {
            if let UndoAction::Irreversible { .. } = &self.0[k] {
                return true;
            }
            k = k + 1;
        }
        false
    }

    /// Every guarded restore whose file no longer matches its recorded hash.
    ///
    /// `current_hash` is asked once per guarded restore, in order; `None` from
    /// it means the file is gone, which for a restore is also a conflict.
    pub fn conflicting<F: Fn(&str) -> Option<String>>(&self, current_hash: F) -> (r: Vec<String>)
        requires
            forall|s: &str| call_requires(current_hash, (s,)),
        ensures
            exists|args: Seq<&str>, hs: Seq<Option<String>>|
                #[trigger] hashes_answered(current_hash, self@, args, hs) && r@.map_values(
                    |s: String| s@,
                ) == conflicts_upto(self@, hs, self@.len() as int),
    {
        let mut out: Vec<String> = Vec::new();
        let ghost mut args: Seq<&str> = Seq::empty();
        let ghost mut hs: Seq<Option<String>> = Seq::empty();
        let mut k: usize = 0;
        while k < self.0.len()
            invariant
                k <= self.0@.len(),
                args.len() == k,
                hs.len() == k,
                forall|s: &str| call_requires(current_hash, (s,)),
                forall|i: int|
                    0 <= i < k && is_guarded_restore(#[trigger] self.0@[i]) ==> {
                        &&& Some(args[i]@) == single_path(self.0@[i])
                        &&& call_ensures(current_hash, (args[i],), hs[i])
                    },
                out@.map_values(|s: String| s@) == conflicts_upto(self.0@, hs, k as int),
            decreases self.0@.len() - k,
        {
            let ghost prev = conflicts_upto(self.0@, hs, k as int);
            let ghost old_hs = hs;
            let ghost old_out = out@;
            match &self.0[k] {
                UndoAction::RestoreFile { path, expected_post_hash: Some(expected) } => {
                    let p: &str = path.as_str();
                    let h = current_hash(p);
                    proof {
                        args = args.push(p);
                        hs = hs.push(h);
                        lemma_conflicts_upto_prefix(self.0@, hs, old_hs, k as int);
                    }
                    let same = match &h {
                        Some(actual) => chars_eq(
                            chars_of(actual.as_str()).as_slice(),
                            chars_of(expected.as_str()).as_slice(),
                        ),
                        None => false,
                    };
                    if !same {
                        let owned = path.clone();
                        out.push(owned);
                        assert(out@.map_values(|s: String| s@) =~= prev.push(path@));
                    } else {
                        assert(out@ == old_out);
                    }
                    assert(hs[k as int] == h);
                    assert(same == (h matches Some(a) && a@ == expected@));
                    assert(self.0@[k as int] == UndoAction::RestoreFile { path: *path, expected_post_hash: Some(*expected) });
                    assert(conflicts_upto(self.0@, hs, k as int) == prev);
                    assert(out@.map_values(|s: String| s@) =~= conflicts_upto(self.0@, hs, k + 1));
                },
                _ => {
                    proof {
                        args = args.push("");
                        hs = hs.push(None);
                        lemma_conflicts_upto_prefix(self.0@, hs, old_hs, k as int);
                    }
                    assert(out@.map_values(|s: String| s@) =~= conflicts_upto(self.0@, hs, k + 1));
                },
            }
            k = k + 1;
        }
        assert(hashes_answered(current_hash, self@, args, hs));
        out
    }
}

impl FromIterator<UndoAction> for UndoActions {
    /// Collects the actions in iteration order (`Vec::from_iter`); nothing
    /// about the result is stated.
    #[verifier::external_body]
    fn from_iter<T: IntoIterator<Item = UndoAction>>(iter: T) -> (r: Self) {
        UndoActions(Vec::from_iter(iter))
    }
}

/// `hs[i]` is what `f` answered when asked about the path of guarded
/// restore `i` (asked as `args[i]`).
pub open spec fn hashes_answered<F: Fn(&str) -> Option<String>>(
    f: F,
    acts: Seq<UndoAction>,
    args: Seq<&str>,
    hs: Seq<Option<String>>,
) -> bool {
    &&& args.len() == acts.len()
    &&& hs.len() == acts.len()
    &&& forall|i: int|
        0 <= i < acts.len() && is_guarded_restore(#[trigger] acts[i]) ==> {
            &&& Some(args[i]@) == single_path(acts[i])
            &&& call_ensures(f, (args[i],), hs[i])
        }
}

/// `conflicts_upto` looks only at the first `n` hashes.
pub proof fn lemma_conflicts_upto_prefix(
    acts: Seq<UndoAction>,
    hs1: Seq<Option<String>>,
    hs2: Seq<Option<String>>,
    n: int,
)
    requires
        n <= hs1.len(),
        n <= hs2.len(),
        forall|i: int| 0 <= i < n ==> hs1[i] == hs2[i],
    ensures
        conflicts_upto(acts, hs1, n) == conflicts_upto(acts, hs2, n),
    decreases n,
{
    if n > 0 {
        lemma_conflicts_upto_prefix(acts, hs1, hs2, n - 1);
    }
}

} // verus!
