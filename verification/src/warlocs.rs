//! Line counts: four categories per region, three regions per file set.

use vstd::prelude::*;
use vstd::std_specs::ops::AddSpecImpl;

verus! {

/// The line counts of one region, by category.
#[derive(Debug, Copy, Clone)]
pub struct Locs {
    pub whitespaces: u64,
    pub code: u64,
    pub docs: u64,
    pub comments: u64,
}

/// The line counts of a set of files: how many files, and the counts of each region.
#[derive(Debug, Copy, Clone)]
pub struct Warlocs {
    pub file_count: u64,
    pub main: Locs,
    pub tests: Locs,
    pub examples: Locs,
}

/// What a `Locs` counts, as natural numbers.
pub struct LocsView {
    pub whitespaces: nat,
    pub code: nat,
    pub docs: nat,
    pub comments: nat,
}

/// What a `Warlocs` counts, as natural numbers.
pub struct WarlocsView {
    pub file_count: nat,
    pub main: LocsView,
    pub tests: LocsView,
    pub examples: LocsView,
}

impl LocsView {
    /// No line at all.
    pub open spec fn zero() -> LocsView {
        LocsView { whitespaces: 0, code: 0, docs: 0, comments: 0 }
    }

    /// The number of lines counted, whatever their category.
    pub open spec fn sum(self) -> nat {
        self.whitespaces + self.code + self.docs + self.comments
    }

    /// The counts of `self` and `rhs` together, category by category.
    pub open spec fn plus(self, rhs: LocsView) -> LocsView {
        LocsView {
            whitespaces: self.whitespaces + rhs.whitespaces,
            code: self.code + rhs.code,
            docs: self.docs + rhs.docs,
            comments: self.comments + rhs.comments,
        }
    }

    /// Every count fits the machine's counter.
    pub open spec fn fits(self) -> bool {
        &&& self.whitespaces <= u64::MAX
        &&& self.code <= u64::MAX
        &&& self.docs <= u64::MAX
        &&& self.comments <= u64::MAX
    }
}

impl WarlocsView {
    /// No file and no line.
    pub open spec fn zero() -> WarlocsView {
        WarlocsView {
            file_count: 0,
            main: LocsView::zero(),
            tests: LocsView::zero(),
            examples: LocsView::zero(),
        }
    }

    /// The blank lines of all regions.
    pub open spec fn whitespaces(self) -> nat {
        self.main.whitespaces + self.tests.whitespaces + self.examples.whitespaces
    }

    /// The code lines of all regions.
    pub open spec fn code(self) -> nat {
        self.main.code + self.tests.code + self.examples.code
    }

    /// The documentation lines of all regions.
    pub open spec fn docs(self) -> nat {
        self.main.docs + self.tests.docs + self.examples.docs
    }

    /// The comment lines of all regions.
    pub open spec fn comments(self) -> nat {
        self.main.comments + self.tests.comments + self.examples.comments
    }

    /// The lines of all regions and categories.
    pub open spec fn sum(self) -> nat {
        self.whitespaces() + self.code() + self.docs() + self.comments()
    }

    /// The counts of `self` and `rhs` together, field by field.
    pub open spec fn plus(self, rhs: WarlocsView) -> WarlocsView {
        WarlocsView {
            file_count: self.file_count + rhs.file_count,
            main: self.main.plus(rhs.main),
            tests: self.tests.plus(rhs.tests),
            examples: self.examples.plus(rhs.examples),
        }
    }

    /// Every count fits the machine's counter.
    pub open spec fn fits(self) -> bool {
        &&& self.file_count <= u64::MAX
        &&& self.main.fits()
        &&& self.tests.fits()
        &&& self.examples.fits()
    }
}

impl View for Locs {
    type V = LocsView;

    open spec fn view(&self) -> LocsView {
        LocsView {
            whitespaces: self.whitespaces as nat,
            code: self.code as nat,
            docs: self.docs as nat,
            comments: self.comments as nat,
        }
    }
}

impl View for Warlocs {
    type V = WarlocsView;

    open spec fn view(&self) -> WarlocsView {
        WarlocsView {
            file_count: self.file_count as nat,
            main: self.main@,
            tests: self.tests@,
            examples: self.examples@,
        }
    }
}

impl Default for Locs {
    fn default() -> (locs: Locs)
        ensures
            locs@ == LocsView::zero(),
    {
        Locs { whitespaces: 0, code: 0, docs: 0, comments: 0 }
    }
}

impl Default for Warlocs {
    fn default() -> (warlocs: Warlocs)
        ensures
            warlocs@ == WarlocsView::zero(),
    {
        Warlocs {
            file_count: 0,
            main: Locs::default(),
            tests: Locs::default(),
            examples: Locs::default(),
        }
    }
}

impl Locs {
    /// The value that `self + rhs` yields where every merged count fits.
    pub open spec fn merged(self, rhs: Locs) -> Locs {
        Locs {
            whitespaces: (self.whitespaces + rhs.whitespaces) as u64,
            code: (self.code + rhs.code) as u64,
            docs: (self.docs + rhs.docs) as u64,
            comments: (self.comments + rhs.comments) as u64,
        }
    }

    /// The number of lines counted, whatever their category.
    pub fn sum(&self) -> (sum: u64)
        requires
            self@.sum() <= u64::MAX,
        ensures
            sum == self@.sum(),
    {
        self.whitespaces + self.code + self.docs + self.comments
    }

    /// Whether `self + rhs` can be computed: no count of the merged value passes `u64::MAX`.
    pub fn fits_with(&self, rhs: &Locs) -> (fits: bool)
        ensures
            fits == self@.plus(rhs@).fits(),
    {
        self.whitespaces <= u64::MAX - rhs.whitespaces && self.code <= u64::MAX - rhs.code
            && self.docs <= u64::MAX - rhs.docs && self.comments <= u64::MAX - rhs.comments
    }
}

impl Warlocs {
    /// The blank lines of all regions.
    pub fn whitespaces(&self) -> (count: u64)
        requires
            self@.whitespaces() <= u64::MAX,
        ensures
            count == self@.whitespaces(),
    {
        self.main.whitespaces + self.tests.whitespaces + self.examples.whitespaces
    }

    /// The code lines of all regions.
    pub fn code(&self) -> (count: u64)
        requires
            self@.code() <= u64::MAX,
        ensures
            count == self@.code(),
    {
        self.main.code + self.tests.code + self.examples.code
    }

    /// The documentation lines of all regions.
    pub fn docs(&self) -> (count: u64)
        requires
            self@.docs() <= u64::MAX,
        ensures
            count == self@.docs(),
    {
        self.main.docs + self.tests.docs + self.examples.docs
    }

    /// The comment lines of all regions.
    pub fn comments(&self) -> (count: u64)
        requires
            self@.comments() <= u64::MAX,
        ensures
            count == self@.comments(),
    {
        self.main.comments + self.tests.comments + self.examples.comments
    }

    /// The lines of all regions and categories.
    pub fn sum(&self) -> (sum: u64)
        requires
            self@.sum() <= u64::MAX,
        ensures
            sum == self@.sum(),
    {
        self.whitespaces() + self.code() + self.docs() + self.comments()
    }

    /// Whether `self + rhs` can be computed: no count of the merged value passes `u64::MAX`.
    pub fn fits_with(&self, rhs: &Warlocs) -> (fits: bool)
        ensures
            fits == self@.plus(rhs@).fits(),
    {
        self.file_count <= u64::MAX - rhs.file_count && self.main.fits_with(&rhs.main)
            && self.tests.fits_with(&rhs.tests) && self.examples.fits_with(&rhs.examples)
    }

    /// Whether the sums can be computed: the grand total does not pass `u64::MAX`.
    pub fn sum_fits(&self) -> (fits: bool)
        ensures
            fits == (self@.sum() <= u64::MAX),
    {
        let main = self.main.whitespaces as u128 + self.main.code as u128 + self.main.docs as u128
            + self.main.comments as u128;
        let tests = self.tests.whitespaces as u128 + self.tests.code as u128
            + self.tests.docs as u128 + self.tests.comments as u128;
        let examples = self.examples.whitespaces as u128 + self.examples.code as u128
            + self.examples.docs as u128 + self.examples.comments as u128;
        main + tests + examples <= u64::MAX as u128
    }
}

impl core::ops::Add<Locs> for Locs {
    type Output = Locs;

    fn add(self, rhs: Locs) -> (sum: Locs)
        ensures
            sum@ == self@.plus(rhs@),
    {
        Locs {
            whitespaces: self.whitespaces + rhs.whitespaces,
            code: self.code + rhs.code,
            docs: self.docs + rhs.docs,
            comments: self.comments + rhs.comments,
        }
    }
}

impl AddSpecImpl<Locs> for Locs {
    open spec fn obeys_add_spec() -> bool {
        true
    }

    open spec fn add_req(self, rhs: Locs) -> bool {
        self@.plus(rhs@).fits()
    }

    open spec fn add_spec(self, rhs: Locs) -> Locs {
        self.merged(rhs)
    }
}

impl core::ops::Add<Warlocs> for Warlocs {
    type Output = Warlocs;

    fn add(self, rhs: Warlocs) -> (sum: Warlocs)
        ensures
            sum@ == self@.plus(rhs@),
    {
        Warlocs {
            file_count: self.file_count + rhs.file_count,
            main: self.main + rhs.main,
            tests: self.tests + rhs.tests,
            examples: self.examples + rhs.examples,
        }
    }
}

impl AddSpecImpl<Warlocs> for Warlocs {
    open spec fn obeys_add_spec() -> bool {
        true
    }

    open spec fn add_req(self, rhs: Warlocs) -> bool {
        self@.plus(rhs@).fits()
    }

    open spec fn add_spec(self, rhs: Warlocs) -> Warlocs {
        Warlocs {
            file_count: (self.file_count + rhs.file_count) as u64,
            main: self.main.merged(rhs.main),
            tests: self.tests.merged(rhs.tests),
            examples: self.examples.merged(rhs.examples),
        }
    }
}

impl core::ops::AddAssign<Warlocs> for Warlocs {
    fn add_assign(&mut self, rhs: Warlocs)
        requires
            old(self)@.plus(rhs@).fits(),
        ensures
            final(self)@ == old(self)@.plus(rhs@),
    {
        *self = *self + rhs;
    }
}

/// Merging is commutative: the order of the two operands does not matter.
pub proof fn lemma_merge_commutative(a: Warlocs, b: Warlocs)
    ensures
        a@.plus(b@) == b@.plus(a@),
{
}

/// Merging is associative: the grouping of three operands does not matter.
pub proof fn lemma_merge_associative(a: Warlocs, b: Warlocs, c: Warlocs)
    ensures
        a@.plus(b@).plus(c@) == a@.plus(b@.plus(c@)),
{
}

/// The zero accumulator is the identity of merging, on either side.
pub proof fn lemma_merge_identity(a: Warlocs)
    ensures
        a@.plus(WarlocsView::zero()) == a@,
        WarlocsView::zero().plus(a@) == a@,
{
}

} // verus!
