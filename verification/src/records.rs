//! What is read from and written to files, and what is told of the progress.
use crate::alignment::Transform;
use crate::file_handler::{
    decimal_value, is_decimal, is_frame_file, load_pcd_files, names_frame, reads_as,
    FileEntry,
};
use crate::icp::reports_progress;
use crate::operate_pcd::{pcd_header, PcdHeader};
use crate::report::{best_stat_result, candidate_path, stat_result, transform_rows, ICPStatResult};
use vstd::prelude::*;

verus! {

/// The entry is a file whose name ends in the name of a cloud file, with decimal digits for
/// the frame's number.
pub open spec fn holds_frame(entry: FileEntry, number: u32) -> bool {
    &&& entry.is_file
    &&& entry.name is Some
    &&& exists|head: Seq<char>, digits: Seq<char>|
        {
            &&& entry.name->0@ == #[trigger] (head + "voxelized-025_frame_"@ + digits + ".pcd"@)
            &&& is_decimal(digits)
            &&& decimal_value(digits) == number
        }
}

/// An entry holds a frame exactly when its name is that of the frame's cloud file.
proof fn lemma_holds_frame(entry: FileEntry, number: u32)
    ensures
        holds_frame(entry, number) <==> is_frame_file(entry, number),
{
    if entry.is_file && entry.name is Some {
        let name = entry.name->0@;
        if holds_frame(entry, number) {
            let (head, digits) = choose|head: Seq<char>, digits: Seq<char>|
                {
                    &&& name == #[trigger] (head + "voxelized-025_frame_"@ + digits + ".pcd"@)
                    &&& is_decimal(digits)
                    &&& decimal_value(digits) == number
                };
            assert(reads_as(name, head, digits));
            assert(names_frame(name, number));
        }
        if is_frame_file(entry, number) {
            let (head, digits) = choose|head: Seq<char>, digits: Seq<char>| #[trigger]
                reads_as(name, head, digits) && is_decimal(digits) && decimal_value(digits)
                    == number;
            assert(name == head + "voxelized-025_frame_"@ + digits + ".pcd"@);
        }
    }
}

/// The cloud files of a directory are listed by rising number of the frame, those of one
/// frame in the order of the entries; each is listed once, and nothing else is.
pub proof fn law_frames_rise(
    entries: Vec<FileEntry>,
    order: Vec<usize>,
    p: int,
    q: int,
    m: u32,
    n: u32,
    i: usize,
)
    requires
        call_ensures(load_pcd_files, (&entries,), order),
        0 <= p < q < order@.len(),
        holds_frame(entries@[order@[p] as int], m),
        holds_frame(entries@[order@[q] as int], n),
        i < entries@.len(),
    ensures
        m <= n,
        m == n ==> order@[p] < order@[q],
        order@.no_duplicates(),
        order@.contains(i) <==> exists|k: u32| holds_frame(entries@[i as int], k),
{
    lemma_holds_frame(entries@[order@[p] as int], m);
    lemma_holds_frame(entries@[order@[q] as int], n);
    if order@.contains(i) {
        let k = choose|k: u32| is_frame_file(entries@[i as int], k);
        lemma_holds_frame(entries@[i as int], k);
    }
    if exists|k: u32| holds_frame(entries@[i as int], k) {
        let k = choose|k: u32| holds_frame(entries@[i as int], k);
        lemma_holds_frame(entries@[i as int], k);
    }
}

/// The rows of a transform are listed from the top and each from the left.
pub proof fn law_rows_read_as_the_transform<T: Copy>(
    transform: Transform<T>,
    rows: Vec<Vec<T>>,
    i: int,
    j: int,
)
    requires
        call_ensures(transform_rows::<T>, (&transform,), rows),
        0 <= i < 4,
        0 <= j < 4,
    ensures
        rows@.len() == 4,
        rows@[i]@.len() == 4,
        rows@[i]@[j] == transform[i][j],
{
}

/// The text is the path of the file of this name in the directory.
pub open spec fn is_path(text: Seq<char>, dir: Seq<char>, name: Seq<char>) -> bool {
    text == dir + seq!['/'] + name
}

/// A candidate is recorded as it is, under the path that it is saved at; the record of the
/// best one differs from that only in the path.
pub proof fn law_records_tell_the_candidate<T: Copy>(
    dir: &str,
    label: &str,
    rmse: T,
    transform: Transform<T>,
    path: String,
    record: ICPStatResult<T>,
    best: ICPStatResult<T>,
    i: int,
    j: int,
)
    requires
        call_ensures(candidate_path, (dir, label), path),
        call_ensures(stat_result::<T>, (dir, label, rmse, &transform), record),
        call_ensures(best_stat_result::<T>, (dir, label, rmse, &transform), best),
        0 <= i < 4,
        0 <= j < 4,
    ensures
        record.save_pcd_path@ == path@,
        is_path(path@, dir@, "icp-aligned-by-"@ + label@ + ".pcd"@),
        is_path(best.save_pcd_path@, dir@, "icp-aligned_best-result"@ + ".pcd"@),
        record.label@ == label@ && best.label@ == label@,
        record.rmse == rmse && best.rmse == rmse,
        record.transform@[i]@[j] == transform[i][j],
        best.transform@[i]@[j] == transform[i][j],
{
    reveal_strlit("/");
    assert("/"@ =~= seq!['/']);
    assert(path@ =~= dir@ + seq!['/'] + ("icp-aligned-by-"@ + label@ + ".pcd"@));
    assert(best.save_pcd_path@ =~= dir@ + seq!['/'] + ("icp-aligned_best-result"@ + ".pcd"@));
}

/// Counted from one, the first iteration is reported and every one whose number is a multiple
/// of five, and no other.
pub proof fn law_every_fifth_is_reported(iteration: usize, r: bool)
    requires
        iteration < usize::MAX,
        call_ensures(reports_progress, (iteration,), r),
    ensures
        r <==> iteration == 0 || exists|k: int| #[trigger] (5 * k) == iteration + 1,
{
    if (iteration + 1) % 5 == 0 {
        assert(5 * ((iteration + 1) / 5) == iteration + 1);
    }
}

/// A file declares as many points as it holds.
pub proof fn law_header_declares_all(len: usize, header: PcdHeader)
    requires
        call_ensures(pcd_header, (len,), header),
    ensures
        header.width * header.height == len,
{
    assert(1 * len == len);
}

} // verus!
