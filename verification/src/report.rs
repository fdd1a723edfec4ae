//! What is kept of the hypotheses that were tried, and which of them is best.
use crate::alignment::Transform;
use crate::operate_pcd::{coloured_all, PointXYZ, PointXYZRGB, Points};
use crate::order::{bits_less, is_nan, less_bits, rank};
use vstd::prelude::*;

verus! {

/// The colours that the clouds of a comparison are drawn in.
pub const TARGET_COLOR: (u8, u8, u8) = (0, 0, 255);

pub const ALIGNED_COLOR: (u8, u8, u8) = (0, 255, 0);

pub const SOURCE_COLOR: (u8, u8, u8) = (255, 0, 0);

pub const CENTERED_COLOR: (u8, u8, u8) = (255, 255, 0);

/// The bit pattern of the largest finite number.
pub const LARGEST_BITS: u64 = 0x7fef_ffff_ffff_ffff;

/// Whether the candidate at position `i` can be chosen at all: its error is a number
/// below the largest one.
pub open spec fn eligible(error_bits: Seq<u64>, i: int) -> bool {
    0 <= i < error_bits.len() && bits_less(error_bits[i], LARGEST_BITS)
}

/// `best` is the position of the smallest error, the first of them where there are
/// several, or `None` where no candidate can be chosen.
pub open spec fn is_best(best: Option<usize>, error_bits: Seq<u64>) -> bool {
    &&& best is None <==> forall|i: int| !#[trigger] eligible(error_bits, i)
    &&& best matches Some(b) ==> {
        &&& eligible(error_bits, b as int)
        &&& forall|i: int| #[trigger]
            eligible(error_bits, i) ==> rank(error_bits[b as int]) <= rank(error_bits[i])
        &&& forall|i: int| #[trigger]
            eligible(error_bits, i) && i < b ==> rank(error_bits[b as int]) < rank(error_bits[i])
    }
}

/// The candidate with the smallest error, the first of them where there are several.
/// The errors are given by their bit patterns.
pub fn best_candidate(error_bits: &Vec<u64>) -> (best: Option<usize>)
    ensures
        is_best(best, error_bits@),
{
    let mut best: Option<usize> = None;
    let mut best_bits: u64 = LARGEST_BITS;
    let mut i: usize = 0;
    while i < error_bits.len()
        invariant
            i <= error_bits@.len(),
            !is_nan(best_bits),
            rank(best_bits) <= rank(LARGEST_BITS),
            best is None ==> best_bits == LARGEST_BITS && forall|j: int|
                j < i ==> !#[trigger] eligible(error_bits@, j),
            best matches Some(b) ==> {
                &&& b < i
                &&& eligible(error_bits@, b as int)
                &&& error_bits@[b as int] == best_bits
                &&& forall|j: int| #[trigger]
                    eligible(error_bits@, j) && j < i ==> rank(best_bits) <= rank(error_bits@[j])
                &&& forall|j: int| #[trigger]
                    eligible(error_bits@, j) && j < b ==> rank(best_bits) < rank(error_bits@[j])
            },
        decreases error_bits@.len() - i,
    {
        if less_bits(error_bits[i], best_bits) {
            assert(eligible(error_bits@, i as int));
            best = Some(i);
            best_bits = error_bits[i];
        }
        i += 1;
    }
    best
}

/// There is one best candidate.
pub proof fn law_best_is_unique(a: Option<usize>, b: Option<usize>, error_bits: Seq<u64>)
    requires
        is_best(a, error_bits),
        is_best(b, error_bits),
    ensures
        a == b,
{
    if a is Some {
        assert(eligible(error_bits, a->0 as int));
    }
    if b is Some {
        assert(eligible(error_bits, b->0 as int));
    }
}

/// The path of a cloud file: the directory, a slash, a name and the extension.
pub open spec fn pcd_path(dir: Seq<char>, name: Seq<char>) -> Seq<char> {
    dir + "/"@ + name + ".pcd"@
}

/// Puts the path of a cloud file together.
pub fn pcd_file_path(dir: &str, name: &str) -> (path: String)
    ensures
        path@ == pcd_path(dir@, name@),
{
    let mut path: String = dir.to_owned();
    path.append("/");
    path.append(name);
    path.append(".pcd");
    path
}

/// The name of the file that the candidate with this label is saved under.
pub open spec fn candidate_name(label: Seq<char>) -> Seq<char> {
    "icp-aligned-by-"@ + label
}

/// The path that the candidate with this label is saved under.
pub fn candidate_path(dir: &str, label: &str) -> (path: String)
    ensures
        path@ == pcd_path(dir@, candidate_name(label@)),
{
    let mut name: String = "icp-aligned-by-".to_owned();
    name.append(label);
    pcd_file_path(dir, name.as_str())
}

/// The path of a file in a directory.
pub fn file_path(dir: &str, name: &str) -> (path: String)
    ensures
        path@ == dir@ + "/"@ + name@,
{
    let mut path: String = dir.to_owned();
    path.append("/");
    path.append(name);
    path
}

/// Candidates with different labels are saved under different paths.
pub proof fn law_paths_tell_labels_apart(dir: Seq<char>, a: Seq<char>, b: Seq<char>)
    requires
        pcd_path(dir, candidate_name(a)) == pcd_path(dir, candidate_name(b)),
    ensures
        a == b,
{
    let (p, q) = (pcd_path(dir, candidate_name(a)), pcd_path(dir, candidate_name(b)));
    let start = (dir + "/"@ + "icp-aligned-by-"@).len() as int;
    let end = p.len() - ".pcd"@.len();
    assert(p.subrange(start, end) =~= a);
    assert(q.subrange(start, end) =~= b);
}

/// What is recorded of a candidate.
pub struct ICPStatResult<T> {
    pub label: String,
    pub save_pcd_path: String,
    pub rmse: T,
    pub transform: Vec<Vec<T>>,
}

/// `rows` are the rows of the transform, in their order.
pub open spec fn are_rows_of<T>(rows: Seq<Vec<T>>, transform: Transform<T>) -> bool {
    &&& rows.len() == 4
    &&& forall|i: int| 0 <= i < 4 ==> (#[trigger] rows[i])@ == transform[i]@
}

/// Lists a transform row by row.
pub fn transform_rows<T: Copy>(transform: &Transform<T>) -> (rows: Vec<Vec<T>>)
    ensures
        are_rows_of(rows@, *transform),
{
    let mut rows: Vec<Vec<T>> = Vec::new();
    let mut i: usize = 0;
    while i < 4
        invariant
            i <= 4,
            rows@.len() == i,
            forall|r: int| 0 <= r < i ==> (#[trigger] rows@[r])@ == transform[r]@,
        decreases 4 - i,
    {
        let entries: [T; 4] = transform[i];
        let mut row: Vec<T> = Vec::new();
        row.push(entries[0]);
        row.push(entries[1]);
        row.push(entries[2]);
        row.push(entries[3]);
        assert(row@ =~= transform[i as int]@);
        rows.push(row);
        i += 1;
    }
    rows
}

/// Records a candidate: its label, where it is saved, its error and its transform.
pub fn stat_result<T: Copy>(dir: &str, label: &str, rmse: T, transform: &Transform<T>) -> (r:
    ICPStatResult<T>)
    ensures
        r.label@ == label@,
        r.save_pcd_path@ == pcd_path(dir@, candidate_name(label@)),
        r.rmse == rmse,
        are_rows_of(r.transform@, *transform),
{
    ICPStatResult {
        label: label.to_owned(),
        save_pcd_path: candidate_path(dir, label),
        rmse,
        transform: transform_rows(transform),
    }
}

/// Records the best candidate, which is saved under a name of its own.
pub fn best_stat_result<T: Copy>(
    dir: &str,
    label: &str,
    rmse: T,
    transform: &Transform<T>,
) -> (r: ICPStatResult<T>)
    ensures
        r.label@ == label@,
        r.save_pcd_path@ == pcd_path(dir@, "icp-aligned_best-result"@),
        r.rmse == rmse,
        are_rows_of(r.transform@, *transform),
{
    ICPStatResult {
        label: label.to_owned(),
        save_pcd_path: pcd_file_path(dir, "icp-aligned_best-result"),
        rmse,
        transform: transform_rows(transform),
    }
}

/// Appends coloured points to a cloud.
fn append_points<T: Copy>(cloud: &mut Vec<PointXYZRGB<T>>, more: &Vec<PointXYZRGB<T>>)
    ensures
        final(cloud)@ == old(cloud)@ + more@,
{
    let ghost before = cloud@;
    let mut i: usize = 0;
    while i < more.len()
        invariant
            i <= more@.len(),
            cloud@ == before + more@.take(i as int),
        decreases more@.len() - i,
    {
        cloud.push(more[i]);
        i += 1;
    }
    assert(more@.take(i as int) =~= more@);
}

/// The clouds of a comparison in one: the target, the aligned source and the source as
/// it was.
pub open spec fn compared<T>(
    target: Points<T>,
    aligned: Points<T>,
    source: Points<T>,
) -> Seq<PointXYZRGB<T>> {
    coloured_all(target.points@, TARGET_COLOR) + coloured_all(aligned.points@, ALIGNED_COLOR)
        + coloured_all(source.points@, SOURCE_COLOR)
}

/// Puts the clouds of a comparison together.
pub fn comparison_cloud<T: Copy>(
    target: &Points<T>,
    aligned: &Points<T>,
    source: &Points<T>,
) -> (cloud: Vec<PointXYZRGB<T>>)
    ensures
        cloud@ == compared(*target, *aligned, *source),
{
    let mut cloud: Vec<PointXYZRGB<T>> = target.transform_colored_points(TARGET_COLOR);
    append_points(&mut cloud, &aligned.transform_colored_points(ALIGNED_COLOR));
    append_points(&mut cloud, &source.transform_colored_points(SOURCE_COLOR));
    cloud
}

/// Puts the clouds of a comparison together, and after them the source as it was
/// before the alignment, centered on the target.
pub fn comparison_cloud_with_centering<T: Copy>(
    target: &Points<T>,
    aligned: &Points<T>,
    source: &Points<T>,
    centered: &Points<T>,
) -> (cloud: Vec<PointXYZRGB<T>>)
    ensures
        cloud@ == compared(*target, *aligned, *source) + coloured_all(
            centered.points@,
            CENTERED_COLOR,
        ),
{
    let mut cloud: Vec<PointXYZRGB<T>> = comparison_cloud(target, aligned, source);
    append_points(&mut cloud, &centered.transform_colored_points(CENTERED_COLOR));
    cloud
}

/// `drawn` is the point in the colour of these bytes.
pub open spec fn is_drawn<T>(
    drawn: PointXYZRGB<T>,
    p: PointXYZ<T>,
    red: int,
    green: int,
    blue: int,
) -> bool {
    &&& drawn.x == p.x
    &&& drawn.y == p.y
    &&& drawn.z == p.z
    &&& drawn.rgb / 0x10000 == red
    &&& drawn.rgb / 0x100 % 0x100 == green
    &&& drawn.rgb % 0x100 == blue
}

/// A comparison shows every point of its clouds once and where it is: first the target in
/// blue, then the aligned source in green and then the source in red. With the centered
/// source it ends in that, in yellow.
pub proof fn law_comparison_shows_all<T: Copy>(
    target: Points<T>,
    aligned: Points<T>,
    source: Points<T>,
    centered: Points<T>,
    cloud: Vec<PointXYZRGB<T>>,
    more: Vec<PointXYZRGB<T>>,
)
    requires
        call_ensures(comparison_cloud::<T>, (&target, &aligned, &source), cloud),
        call_ensures(
            comparison_cloud_with_centering::<T>,
            (&target, &aligned, &source, &centered),
            more,
        ),
    ensures
        cloud@.len() == target.points@.len() + aligned.points@.len() + source.points@.len(),
        more@.len() == cloud@.len() + centered.points@.len(),
        forall|i: int| 0 <= i < cloud@.len() ==> #[trigger] more@[i] == cloud@[i],
        forall|i: int|
            0 <= i < target.points@.len() ==> is_drawn(
                cloud@[i],
                #[trigger] target.points@[i],
                0,
                0,
                255,
            ),
        forall|i: int|
            0 <= i < aligned.points@.len() ==> is_drawn(
                cloud@[target.points@.len() + i],
                #[trigger] aligned.points@[i],
                0,
                255,
                0,
            ),
        forall|i: int|
            0 <= i < source.points@.len() ==> is_drawn(
                cloud@[target.points@.len() + aligned.points@.len() + i],
                #[trigger] source.points@[i],
                255,
                0,
                0,
            ),
        forall|i: int|
            0 <= i < centered.points@.len() ==> is_drawn(
                more@[cloud@.len() + i],
                #[trigger] centered.points@[i],
                255,
                255,
                0,
            ),
{
}

} // verus!
