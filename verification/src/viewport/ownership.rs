//! Ownership of one complete primary-button press, from press through
//! release: the first tool to claim a press owns it until release.

use vstd::prelude::*;

verus! {

/// The viewport tools that compete for the primary pointer button.
#[derive(Clone, Copy, Debug, PartialEq, Eq, Structural)]
pub enum PrimaryPointerOwner {
    Navigation,
    Ui,
    Sprite,
    Marquee,
}

/// Who owns the current primary press, and whether that owner has locked
/// the selection until release.
#[derive(Debug, Default)]
pub struct PrimaryPointerOwnership {
    owner: Option<PrimaryPointerOwner>,
    selection_locked: bool,
}

pub struct OwnershipView {
    pub owner: Option<PrimaryPointerOwner>,
    pub selection_locked: bool,
}

impl View for PrimaryPointerOwnership {
    type V = OwnershipView;

    closed spec fn view(&self) -> OwnershipView {
        OwnershipView { owner: self.owner, selection_locked: self.selection_locked }
    }
}

/// Whether claiming the press for `owner` succeeds in state `v`.
pub open spec fn claim_succeeds(v: OwnershipView, owner: PrimaryPointerOwner) -> bool {
    v.owner is None || v.owner == Some(owner)
}

/// The state after claiming the press for `owner` in state `v`.
pub open spec fn after_claim(v: OwnershipView, owner: PrimaryPointerOwner) -> OwnershipView {
    OwnershipView {
        owner: if v.owner is None {
            Some(owner)
        } else {
            v.owner
        },
        selection_locked: v.selection_locked,
    }
}

/// The state after releasing the press.
pub open spec fn released() -> OwnershipView {
    OwnershipView { owner: None, selection_locked: false }
}

impl PrimaryPointerOwnership {
    /// Only a press with an owner can have its selection locked.
    #[verifier::type_invariant]
    spec fn well_formed(self) -> bool {
        self.selection_locked ==> self.owner is Some
    }

    pub open spec fn valid(v: OwnershipView) -> bool {
        v.selection_locked ==> v.owner is Some
    }

    pub fn new() -> (r: Self)
        ensures
            r@.owner is None,
            !r@.selection_locked,
    {
        PrimaryPointerOwnership { owner: None, selection_locked: false }
    }

    /// Claims the current press for `owner`: succeeds when the press has no
    /// owner yet (which then becomes `owner`) or already belongs to `owner`.
    pub fn claim(&mut self, owner: PrimaryPointerOwner) -> (r: bool)
        ensures
            r == claim_succeeds(old(self)@, owner),
            final(self)@ == after_claim(old(self)@, owner),
            Self::valid(final(self)@),
    {
        proof {
            use_type_invariant(&*self);
        }
        match self.owner {
            None => {
                self.owner = Some(owner);
                true
            },
            Some(current) => current == owner,
        }
    }

    pub fn is_owned_by(&self, owner: PrimaryPointerOwner) -> (r: bool)
        ensures
            r == (self@.owner == Some(owner)),
    {
        match self.owner {
            Some(current) => current == owner,
            None => false,
        }
    }

    pub fn is_claimed(&self) -> (r: bool)
        ensures
            r == (self@.owner is Some),
    {
        self.owner.is_some()
    }

    /// Locks the selection for the rest of the press; only the owner may.
    pub fn lock_selection(&mut self, owner: PrimaryPointerOwner) -> (r: bool)
        ensures
            r == (old(self)@.owner == Some(owner)),
            final(self)@.owner == old(self)@.owner,
            final(self)@.selection_locked == (old(self)@.selection_locked || r),
            Self::valid(final(self)@),
    {
        proof {
            use_type_invariant(&*self);
        }
        if !self.is_owned_by(owner) {
            return false;
        }
        self.selection_locked = true;
        true
    }

    pub fn selection_is_locked_by(&self, owner: PrimaryPointerOwner) -> (r: bool)
        ensures
            r == (self@.owner == Some(owner) && self@.selection_locked),
    {
        self.is_owned_by(owner) && self.selection_locked
    }

    /// Ends the press: no owner, no lock.
    pub fn release(&mut self)
        ensures
            final(self)@ == released(),
    {
        *self = PrimaryPointerOwnership { owner: None, selection_locked: false };
    }

    /// What the release system does each frame: the press ends once the
    /// left button is no longer held.
    pub fn release_unless_pressed(&mut self, left_pressed: bool)
        ensures
            left_pressed ==> final(self)@ == old(self)@,
            !left_pressed ==> final(self)@.owner is None && !final(self)@.selection_locked,
    {
        if !left_pressed {
            self.release();
        }
    }
}

/// One press has exactly one owner: from a released state, after a
/// successful claim by `first`, a claim by any other tool fails and changes
/// nothing, while `first` may claim again; after release any tool may claim.
pub proof fn lemma_one_owner_per_press(first: PrimaryPointerOwner, other: PrimaryPointerOwner)
    requires
        other != first,
    ensures
        claim_succeeds(released(), first),
        !claim_succeeds(after_claim(released(), first), other),
        after_claim(after_claim(released(), first), other) == after_claim(released(), first),
        claim_succeeds(after_claim(released(), first), first),
        claim_succeeds(released(), other),
{
}

} // verus!
