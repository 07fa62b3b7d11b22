//! Which files of the session directories are read.
use vstd::prelude::*;

use crate::sessions;
use crate::sessions::{DirectoryView, EntryPlace, LogPlace};

verus! {

/// A log is a file whose name ends in `.jsonl` and is more than that.
pub proof fn logs_end_in_jsonl(stem: Seq<u8>, name: Seq<u8>)
    ensures
        stem.len() > 0 && name == stem + seq![46u8, 106, 115, 111, 110, 108]
            ==> sessions::is_log_name(name),
        sessions::is_log_name(name) ==> name.len() > 6 && name == name.take(name.len() - 6)
            + seq![46u8, 106, 115, 111, 110, 108],
        !sessions::is_log_name(seq![46u8, 106, 115, 111, 110, 108]),
{
    let ending = seq![46u8, 106, 115, 111, 110, 108];
    if stem.len() > 0 && name == stem + ending {
        assert(name.skip(name.len() - 6) =~= ending);
    }
    if sessions::is_log_name(name) {
        assert(name =~= name.take(name.len() - 6) + name.skip(name.len() - 6));
    }
}

/// The file at a place.
pub open spec fn file_at(homes: Seq<Seq<DirectoryView>>, place: LogPlace) -> EntryPlace {
    homes[place.home as int][place.directory as int].files[place.file as int]
}

/// Whether there is a file at a place.
pub open spec fn is_file(homes: Seq<Seq<DirectoryView>>, place: LogPlace) -> bool {
    &&& place.home < homes.len()
    &&& place.directory < homes[place.home as int].len()
    &&& place.file < homes[place.home as int][place.directory as int].files.len()
}

/// Whether the directory of a place is listed there for the first time.
pub open spec fn is_new_directory(homes: Seq<Seq<DirectoryView>>, place: LogPlace) -> bool {
    forall|h: int, d: int|
        0 <= h < homes.len() && 0 <= d < homes[h].len() && (h < place.home || (h == place.home && d
            < place.directory)) ==> (#[trigger] homes[h][d]).path
            != homes[place.home as int][place.directory as int].path
}

/// The first log under a path among files.
proof fn lemma_first_log(files: Seq<EntryPlace>, at: int) -> (first: int)
    requires
        0 <= at < files.len(),
        sessions::is_log_name(files[at].name),
    ensures
        0 <= first <= at,
        sessions::is_first_log(files, first),
        files[first].relative == files[at].relative,
    decreases at,
{
    if exists|g: int|
        0 <= g < at && sessions::is_log_name((#[trigger] files[g]).name) && files[g].relative
            == files[at].relative {
        let g = choose|g: int|
            0 <= g < at && sessions::is_log_name((#[trigger] files[g]).name) && files[g].relative
                == files[at].relative;
        lemma_first_log(files, g)
    } else {
        at
    }
}

/// No log is lost: for every log in a directory that is listed for the first time, a log under the
/// same path is read from the same home, out of that directory or one before it.
pub proof fn no_log_is_lost(homes: Seq<Seq<DirectoryView>>, place: LogPlace) -> (read: LogPlace)
    requires
        is_file(homes, place),
        sessions::is_log_name(file_at(homes, place).name),
        is_new_directory(homes, place),
        forall|d: int|
            0 <= d < homes[place.home as int].len() ==> (
            #[trigger] homes[place.home as int][d]).files.len() <= usize::MAX,
    ensures
        sessions::is_session_log(homes, read),
        is_file(homes, read),
        read.home == place.home,
        read.directory <= place.directory,
        file_at(homes, read).relative == file_at(homes, place).relative,
    decreases place.directory,
{
    let home = place.home as int;
    let directory = place.directory as int;
    let path = file_at(homes, place).relative;
    if exists|d: int|
        0 <= d < directory && sessions::is_fresh(homes, home, d) && sessions::holds_log(
            #[trigger] homes[home][d],
            path,
        ) {
        let d = choose|d: int|
            0 <= d < directory && sessions::is_fresh(homes, home, d) && sessions::holds_log(
                #[trigger] homes[home][d],
                path,
            );
        let files = homes[home][d].files;
        let f = choose|f: int|
            0 <= f < files.len() && sessions::is_log_name((#[trigger] files[f]).name)
                && files[f].relative == path;
        let earlier = LogPlace { home: place.home, directory: d as usize, file: f as usize };
        assert(file_at(homes, earlier) == files[f]);
        assert forall|h: int, e: int|
            0 <= h < homes.len() && 0 <= e < homes[h].len() && (h < earlier.home || (h
                == earlier.home && e < earlier.directory)) implies (#[trigger] homes[h][e]).path
            != homes[earlier.home as int][earlier.directory as int].path by {
            assert(sessions::stands_before(h, e, home, d));
        }
        no_log_is_lost(homes, earlier)
    } else {
        let files = homes[home][directory].files;
        let first = lemma_first_log(files, place.file as int);
        let read = LogPlace { home: place.home, directory: place.directory, file: first as usize };
        assert forall|h: int, d: int|
            0 <= h < homes.len() && 0 <= d < homes[h].len() && sessions::stands_before(
                h,
                d,
                home,
                directory,
            ) implies (#[trigger] homes[h][d]).path != homes[home][directory].path by {}
        assert(sessions::is_fresh(homes, home, directory));
        assert(sessions::is_new_path(homes, home, directory, path));
        read
    }
}

/// Only logs are read, each path of a home once, and no directory that was listed before.
pub proof fn nothing_is_read_twice(
    homes: Seq<Seq<DirectoryView>>,
    first: LogPlace,
    second: LogPlace,
)
    requires
        sessions::is_session_log(homes, first),
        sessions::is_session_log(homes, second),
    ensures
        is_file(homes, first),
        sessions::is_log_name(file_at(homes, first).name),
        is_new_directory(homes, first),
        first.home == second.home && file_at(homes, first).relative == file_at(
            homes,
            second,
        ).relative ==> first == second,
{
    assert forall|h: int, d: int|
        0 <= h < homes.len() && 0 <= d < homes[h].len() && (h < first.home || (h == first.home && d
            < first.directory)) implies (#[trigger] homes[h][d]).path
        != homes[first.home as int][first.directory as int].path by {
        assert(sessions::stands_before(h, d, first.home as int, first.directory as int));
    }
    if first.home == second.home && file_at(homes, first).relative == file_at(
        homes,
        second,
    ).relative {
        let home = first.home as int;
        let here = homes[home][first.directory as int];
        let there = homes[home][second.directory as int];
        if first.directory < second.directory {
            assert(sessions::is_log_name(here.files[first.file as int].name));
            assert(sessions::holds_log(here, file_at(homes, first).relative));
        } else if second.directory < first.directory {
            assert(sessions::is_log_name(there.files[second.file as int].name));
            assert(sessions::holds_log(there, file_at(homes, second).relative));
        } else if first.file < second.file {
            assert(here.files[first.file as int].relative != here.files[second.file as int].relative);
        } else if second.file < first.file {
            assert(here.files[second.file as int].relative != here.files[first.file as int].relative);
        }
    }
}

/// Names are ordered by the first byte in which they differ, and a name comes before those that go
/// on from it.
proof fn lemma_bytes_order(common: Seq<u8>, left: Seq<u8>, right: Seq<u8>)
    requires
        right.len() > 0,
        left.len() > 0 ==> left[0] < right[0],
    ensures
        sessions::bytes_before(common + left, common + right),
    decreases common.len(),
{
    if common.len() == 0 {
        assert(common + left =~= left);
        assert(common + right =~= right);
    } else {
        let rest = common.drop_first();
        lemma_bytes_order(rest, left, right);
        assert((common + left).drop_first() =~= rest + left);
        assert((common + right).drop_first() =~= rest + right);
    }
}

/// Logs are read home by home, then directory by directory, then by their paths: of two paths the one
/// comes first whose name is smaller where they first differ, by the first byte in which the names
/// differ, or which ends there.
pub proof fn logs_are_read_in_the_order_of_their_paths(
    homes: Seq<Seq<DirectoryView>>,
    first: LogPlace,
    second: LogPlace,
    common: Seq<Seq<u8>>,
    start: Seq<u8>,
    left: Seq<u8>,
    right: Seq<u8>,
    left_rest: Seq<Seq<u8>>,
    right_rest: Seq<Seq<u8>>,
)
    requires
        right.len() > 0,
        left.len() > 0 ==> left[0] < right[0],
    ensures
        first.home < second.home ==> sessions::is_read_before(homes, first, second),
        first.home == second.home && first.directory < second.directory
            ==> sessions::is_read_before(homes, first, second),
        first.home == second.home && first.directory == second.directory && file_at(
            homes,
            first,
        ).relative == common + (seq![start + left] + left_rest) && file_at(homes, second).relative
            == common + (seq![start + right] + right_rest) ==> sessions::is_read_before(
            homes,
            first,
            second,
        ),
{
    lemma_bytes_order(start, left, right);
    assert(start + left != start + right) by {
        if start + left == start + right {
            assert((start + left).len() == (start + right).len());
            assert((start + left)[start.len() as int] == left[0]);
            assert((start + right)[start.len() as int] == right[0]);
        }
    }
    lemma_path_order(
        common,
        seq![start + left] + left_rest,
        seq![start + right] + right_rest,
    );
}

/// Paths are ordered by the first name in which they differ.
proof fn lemma_path_order(common: Seq<Seq<u8>>, left: Seq<Seq<u8>>, right: Seq<Seq<u8>>)
    requires
        left.len() > 0,
        right.len() > 0,
        left[0] != right[0],
        sessions::bytes_before(left[0], right[0]),
    ensures
        sessions::path_before(common + left, common + right),
    decreases common.len(),
{
    if common.len() == 0 {
        assert(common + left =~= left);
        assert(common + right =~= right);
    } else {
        let rest = common.drop_first();
        lemma_path_order(rest, left, right);
        assert((common + left).drop_first() =~= rest + left);
        assert((common + right).drop_first() =~= rest + right);
    }
}

} // verus!
