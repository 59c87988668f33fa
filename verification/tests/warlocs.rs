use warloc::warlocs::Locs;
use warloc::warlocs::Warlocs;

fn locs(whitespaces: u64, code: u64, docs: u64, comments: u64) -> Locs {
    Locs { whitespaces, code, docs, comments }
}

fn fields(warlocs: &Warlocs) -> [u64; 13] {
    [
        warlocs.file_count,
        warlocs.main.whitespaces,
        warlocs.main.code,
        warlocs.main.docs,
        warlocs.main.comments,
        warlocs.tests.whitespaces,
        warlocs.tests.code,
        warlocs.tests.docs,
        warlocs.tests.comments,
        warlocs.examples.whitespaces,
        warlocs.examples.code,
        warlocs.examples.docs,
        warlocs.examples.comments,
    ]
}

fn samples() -> (Warlocs, Warlocs, Warlocs) {
    let a = Warlocs { file_count: 1, main: locs(1, 2, 3, 4), tests: locs(5, 6, 7, 8), examples: locs(9, 10, 11, 12) };
    let b = Warlocs { file_count: 2, main: locs(10, 0, 30, 0), tests: locs(0, 60, 0, 80), examples: locs(1, 1, 1, 1) };
    let c = Warlocs { file_count: 40, main: locs(7, 7, 7, 7), tests: locs(0, 0, 0, 0), examples: locs(100, 200, 300, 400) };
    (a, b, c)
}

#[test]
fn default_is_all_zero() {
    assert_eq!(fields(&Warlocs::default()), [0; 13]);
    assert_eq!(Locs::default().sum(), 0);
    assert_eq!(Warlocs::default().sum(), 0);
}

#[test]
fn locs_sum_adds_the_four_categories() {
    assert_eq!(locs(1, 20, 300, 4000).sum(), 4321);
}

#[test]
fn warlocs_sums_add_the_three_regions() {
    let (a, _, _) = samples();

    assert_eq!(a.whitespaces(), 15);
    assert_eq!(a.code(), 18);
    assert_eq!(a.docs(), 21);
    assert_eq!(a.comments(), 24);
    assert_eq!(a.sum(), 78);
    assert_eq!(a.sum(), a.main.sum() + a.tests.sum() + a.examples.sum());
}

#[test]
fn merge_adds_field_by_field() {
    let (a, b, _) = samples();

    assert_eq!(fields(&(a + b)), [3, 11, 2, 33, 4, 5, 66, 7, 88, 10, 11, 12, 13]);
    let sum = a.main + b.main;
    assert_eq!((sum.whitespaces, sum.code, sum.docs, sum.comments), (11, 2, 33, 4));
}

#[test]
fn merge_is_commutative() {
    let (a, b, _) = samples();

    assert_eq!(fields(&(a + b)), fields(&(b + a)));
}

#[test]
fn merge_is_associative() {
    let (a, b, c) = samples();

    assert_eq!(fields(&((a + b) + c)), fields(&(a + (b + c))));
}

#[test]
fn zero_is_the_identity_of_merge() {
    let (a, _, _) = samples();

    assert_eq!(fields(&(a + Warlocs::default())), fields(&a));
    assert_eq!(fields(&(Warlocs::default() + a)), fields(&a));
}

#[test]
fn add_assign_merges_in_place() {
    let (a, b, c) = samples();
    let mut total = Warlocs::default();
    total += a;
    total += b;
    total += c;

    assert_eq!(fields(&total), fields(&(a + b + c)));
    assert_eq!(total.file_count, 43);
    assert_eq!(total.sum(), a.sum() + b.sum() + c.sum());
}

#[test]
fn fits_with_tells_when_a_merge_fits() {
    let (a, b, _) = samples();
    let full = Warlocs { tests: locs(0, u64::MAX, 0, 0), ..Warlocs::default() };
    let one = Warlocs { tests: locs(0, 1, 0, 0), ..Warlocs::default() };
    let files = Warlocs { file_count: u64::MAX, ..Warlocs::default() };

    assert!(a.fits_with(&b));
    assert!(a.main.fits_with(&b.main));
    assert!(full.fits_with(&Warlocs::default()));
    assert!(!full.fits_with(&one));
    assert!(!one.fits_with(&full));
    assert!(full.fits_with(&files));
    assert!(!files.fits_with(&Warlocs { file_count: 1, ..Warlocs::default() }));
    assert!(locs(u64::MAX - 1, 0, 0, 0).fits_with(&locs(1, 0, 0, 0)));
    assert!(!locs(0, 0, 0, u64::MAX).fits_with(&locs(0, 0, 0, 1)));
}

#[test]
fn sum_fits_tells_when_the_total_fits() {
    let (a, _, _) = samples();
    let full = Warlocs { main: locs(u64::MAX, 0, 0, 0), ..Warlocs::default() };
    let over = Warlocs { examples: locs(0, 0, 1, 0), ..full };
    let far_over = Warlocs { main: locs(u64::MAX, u64::MAX, u64::MAX, u64::MAX), ..over };

    assert!(a.sum_fits());
    assert!(full.sum_fits());
    assert_eq!(full.sum(), u64::MAX);
    assert!(!over.sum_fits());
    assert!(!far_over.sum_fits());
}
