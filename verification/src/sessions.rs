//! Which files hold the logs of sessions.
use vstd::prelude::*;

verus! {

/// A file in a directory of logs.
#[derive(Debug)]
pub struct LogEntry {
    /// The names on the way from the directory to the file.
    pub relative: Vec<Vec<u8>>,
    /// The name of the file itself.
    pub name: Vec<u8>,
}

/// A file in a directory of logs.
pub struct EntryPlace {
    pub relative: Seq<Seq<u8>>,
    pub name: Seq<u8>,
}

impl View for LogEntry {
    type V = EntryPlace;

    open spec fn view(&self) -> EntryPlace {
        EntryPlace { relative: name_views(self.relative@), name: self.name@ }
    }
}

/// The names of a list.
pub open spec fn name_views(names: Seq<Vec<u8>>) -> Seq<Seq<u8>> {
    names.map_values(|name: Vec<u8>| name@)
}

/// A directory of logs: its full path, and the files below it.
#[derive(Debug)]
pub struct LogDirectory {
    pub path: Vec<u8>,
    pub files: Vec<LogEntry>,
}

/// A directory of logs.
pub struct DirectoryView {
    pub path: Seq<u8>,
    pub files: Seq<EntryPlace>,
}

impl View for LogDirectory {
    type V = DirectoryView;

    open spec fn view(&self) -> DirectoryView {
        DirectoryView { path: self.path@, files: entry_places(self.files@) }
    }
}

/// The files of a list.
pub open spec fn entry_places(files: Seq<LogEntry>) -> Seq<EntryPlace> {
    files.map_values(|file: LogEntry| file@)
}

/// The directories of a home.
pub open spec fn directory_views(directories: Seq<LogDirectory>) -> Seq<DirectoryView> {
    directories.map_values(|directory: LogDirectory| directory@)
}

/// The directories of all homes.
pub open spec fn home_views(homes: Seq<Vec<LogDirectory>>) -> Seq<Seq<DirectoryView>> {
    homes.map_values(|home: Vec<LogDirectory>| directory_views(home@))
}

/// Whether bytes come before others.
pub open spec fn bytes_before(left: Seq<u8>, right: Seq<u8>) -> bool
    decreases left.len(),
{
    if right.len() == 0 {
        false
    } else if left.len() == 0 {
        true
    } else if left[0] != right[0] {
        left[0] < right[0]
    } else {
        bytes_before(left.drop_first(), right.drop_first())
    }
}

/// Whether a path comes before another, name by name.
pub open spec fn path_before(left: Seq<Seq<u8>>, right: Seq<Seq<u8>>) -> bool
    decreases left.len(),
{
    if right.len() == 0 {
        false
    } else if left.len() == 0 {
        true
    } else if left[0] != right[0] {
        bytes_before(left[0], right[0])
    } else {
        path_before(left.drop_first(), right.drop_first())
    }
}

/// The order of bytes is total.
proof fn lemma_bytes_total(left: Seq<u8>, right: Seq<u8>)
    ensures
        bytes_before(left, right) || bytes_before(right, left) || left == right,
        !(bytes_before(left, right) && bytes_before(right, left)),
        left == right ==> !bytes_before(left, right),
    decreases left.len(),
{
    if left.len() > 0 && right.len() > 0 {
        lemma_bytes_total(left.drop_first(), right.drop_first());
        if left[0] == right[0] && left.drop_first() == right.drop_first() {
            assert(left =~= seq![left[0]] + left.drop_first());
            assert(right =~= seq![right[0]] + right.drop_first());
        }
    } else if left.len() == 0 && right.len() == 0 {
        assert(left =~= right);
    }
}

/// The order of bytes is transitive.
proof fn lemma_bytes_transitive(left: Seq<u8>, middle: Seq<u8>, right: Seq<u8>)
    requires
        bytes_before(left, middle),
        bytes_before(middle, right),
    ensures
        bytes_before(left, right),
    decreases left.len(),
{
    if left.len() > 0 && left[0] == middle[0] && middle[0] == right[0] {
        lemma_bytes_transitive(left.drop_first(), middle.drop_first(), right.drop_first());
    }
}

/// The order of paths is total.
proof fn lemma_path_total(left: Seq<Seq<u8>>, right: Seq<Seq<u8>>)
    ensures
        path_before(left, right) || path_before(right, left) || left == right,
        !(path_before(left, right) && path_before(right, left)),
        left == right ==> !path_before(left, right),
    decreases left.len(),
{
    if left.len() > 0 && right.len() > 0 {
        lemma_bytes_total(left[0], right[0]);
        lemma_path_total(left.drop_first(), right.drop_first());
        if left[0] == right[0] && left.drop_first() == right.drop_first() {
            assert(left =~= seq![left[0]] + left.drop_first());
            assert(right =~= seq![right[0]] + right.drop_first());
        }
    } else if left.len() == 0 && right.len() == 0 {
        assert(left =~= right);
    }
}

/// The order of paths is transitive.
proof fn lemma_path_transitive(left: Seq<Seq<u8>>, middle: Seq<Seq<u8>>, right: Seq<Seq<u8>>)
    requires
        path_before(left, middle),
        path_before(middle, right),
    ensures
        path_before(left, right),
    decreases left.len(),
{
    if left.len() > 0 {
        if left[0] == middle[0] && middle[0] == right[0] {
            lemma_path_transitive(left.drop_first(), middle.drop_first(), right.drop_first());
        } else if left[0] != middle[0] && middle[0] != right[0] {
            lemma_bytes_transitive(left[0], middle[0], right[0]);
            lemma_bytes_total(left[0], right[0]);
            lemma_bytes_total(left[0], middle[0]);
            if left[0] == right[0] {
                lemma_bytes_total(middle[0], left[0]);
            }
        }
    }
}

/// Whether the name is that of a log: it ends in `.jsonl` and is more than that.
pub open spec fn is_log_name(name: Seq<u8>) -> bool {
    name.len() > 6 && name.skip(name.len() - 6) == seq![46u8, 106, 115, 111, 110, 108]
}

/// Whether the name is that of a log.
pub fn is_log(name: &Vec<u8>) -> (log: bool)
    ensures
        log == is_log_name(name@),
{
    let len = name.len();
    if len <= 6 {
        return false;
    }
    let ghost end = name@.skip(name@.len() - 6);
    let ghost wanted = seq![46u8, 106, 115, 111, 110, 108];
    let log = name[len - 6] == 46 && name[len - 5] == 106 && name[len - 4] == 115 && name[len - 3]
        == 111 && name[len - 2] == 110 && name[len - 1] == 108;
    proof {
        if log {
            assert(end =~= wanted);
        } else {
            assert(end[0] == name@[len - 6]);
            assert(end[1] == name@[len - 5]);
            assert(end[2] == name@[len - 4]);
            assert(end[3] == name@[len - 3]);
            assert(end[4] == name@[len - 2]);
            assert(end[5] == name@[len - 1]);
            assert(wanted[0] == 46 && wanted[1] == 106 && wanted[2] == 115 && wanted[3] == 111
                && wanted[4] == 110 && wanted[5] == 108);
        }
    }
    log
}

/// How two paths lie to each other.
enum Order {
    Before,
    Same,
    After,
}

/// How two names lie to each other.
fn name_order(left: &Vec<u8>, right: &Vec<u8>) -> (order: Order)
    ensures
        match order {
            Order::Before => bytes_before(left@, right@),
            Order::Same => left@ == right@,
            Order::After => bytes_before(right@, left@),
        },
{
    let mut i: usize = 0;
    assert(left@.skip(0) =~= left@ && right@.skip(0) =~= right@);
    while i < left.len() && i < right.len()
        invariant
            i <= left@.len(),
            i <= right@.len(),
            left@.take(i as int) == right@.take(i as int),
            bytes_before(left@, right@) == bytes_before(
                left@.skip(i as int),
                right@.skip(i as int),
            ),
            bytes_before(right@, left@) == bytes_before(
                right@.skip(i as int),
                left@.skip(i as int),
            ),
        decreases left@.len() - i,
    {
        assert(left@.skip(i as int)[0] == left@[i as int]);
        assert(right@.skip(i as int)[0] == right@[i as int]);
        if left[i] < right[i] {
            return Order::Before;
        }
        if right[i] < left[i] {
            return Order::After;
        }
        assert(left@.skip(i as int).drop_first() =~= left@.skip(i + 1));
        assert(right@.skip(i as int).drop_first() =~= right@.skip(i + 1));
        assert(left@.take(i + 1) =~= left@.take(i as int).push(left@[i as int]));
        assert(right@.take(i + 1) =~= right@.take(i as int).push(right@[i as int]));
        i += 1;
    }
    if i < right.len() {
        Order::Before
    } else if i < left.len() {
        Order::After
    } else {
        assert(left@.take(i as int) =~= left@);
        assert(right@.take(i as int) =~= right@);
        Order::Same
    }
}

/// How two paths lie to each other.
fn path_order(left: &Vec<Vec<u8>>, right: &Vec<Vec<u8>>) -> (order: Order)
    ensures
        match order {
            Order::Before => path_before(name_views(left@), name_views(right@)),
            Order::Same => name_views(left@) == name_views(right@),
            Order::After => path_before(name_views(right@), name_views(left@)),
        },
{
    let ghost first = name_views(left@);
    let ghost second = name_views(right@);
    let mut i: usize = 0;
    assert(first.skip(0) =~= first && second.skip(0) =~= second);
    while i < left.len() && i < right.len()
        invariant
            first == name_views(left@),
            second == name_views(right@),
            i <= left@.len(),
            i <= right@.len(),
            first.take(i as int) == second.take(i as int),
            path_before(first, second) == path_before(first.skip(i as int), second.skip(i as int)),
            path_before(second, first) == path_before(second.skip(i as int), first.skip(i as int)),
        decreases left@.len() - i,
    {
        assert(first.skip(i as int)[0] == left@[i as int]@);
        assert(second.skip(i as int)[0] == right@[i as int]@);
        proof {
            lemma_bytes_total(left@[i as int]@, right@[i as int]@);
        }
        match name_order(&left[i], &right[i]) {
            Order::Before => {
                return Order::Before;
            },
            Order::After => {
                return Order::After;
            },
            Order::Same => {},
        }
        assert(first.skip(i as int).drop_first() =~= first.skip(i + 1));
        assert(second.skip(i as int).drop_first() =~= second.skip(i + 1));
        assert(first.take(i + 1) =~= first.take(i as int).push(first[i as int]));
        assert(second.take(i + 1) =~= second.take(i as int).push(second[i as int]));
        i += 1;
    }
    if i < right.len() {
        Order::Before
    } else if i < left.len() {
        Order::After
    } else {
        assert(first.take(i as int) =~= first);
        assert(second.take(i as int) =~= second);
        Order::Same
    }
}

/// Whether a file is a log, and the first that is listed under its path.
pub open spec fn is_first_log(files: Seq<EntryPlace>, at: int) -> bool {
    &&& 0 <= at < files.len()
    &&& is_log_name(files[at].name)
    &&& forall|g: int|
        0 <= g < at && is_log_name((#[trigger] files[g]).name) ==> files[g].relative
            != files[at].relative
}

/// Whether places in a list of files are in the order of their paths.
pub open spec fn in_path_order(files: Seq<EntryPlace>, places: Seq<usize>) -> bool {
    &&& forall|i: int| 0 <= i < places.len() ==> (#[trigger] places[i]) < files.len()
    &&& forall|i: int, j: int|
        0 <= i < j < places.len() ==> path_before(
            files[(#[trigger] places[i]) as int].relative,
            files[(#[trigger] places[j]) as int].relative,
        )
}

/// Where a path lies among ordered ones, and whether it is one of them.
fn find_path(files: &Vec<LogEntry>, places: &Vec<usize>, path: &Vec<Vec<u8>>) -> (found: (
    usize,
    bool,
))
    requires
        in_path_order(entry_places(files@), places@),
    ensures
        found.0 <= places@.len(),
        forall|i: int|
            0 <= i < found.0 ==> path_before(
                entry_places(files@)[(#[trigger] places@[i]) as int].relative,
                name_views(path@),
            ),
        found.1 ==> found.0 < places@.len() && entry_places(
            files@,
        )[places@[found.0 as int] as int].relative == name_views(path@),
        !found.1 ==> forall|i: int|
            found.0 <= i < places@.len() ==> path_before(
                name_views(path@),
                entry_places(files@)[(#[trigger] places@[i]) as int].relative,
            ),
{
    let ghost views = entry_places(files@);
    let ghost wanted = name_views(path@);
    let mut low: usize = 0;
    let mut high: usize = places.len();
    while low < high
        invariant
            views == entry_places(files@),
            wanted == name_views(path@),
            in_path_order(views, places@),
            low <= high <= places@.len(),
            forall|i: int|
                0 <= i < low ==> path_before(
                    views[(#[trigger] places@[i]) as int].relative,
                    wanted,
                ),
            forall|i: int|
                high <= i < places@.len() ==> path_before(
                    wanted,
                    views[(#[trigger] places@[i]) as int].relative,
                ),
        decreases high - low,
    {
        let middle: usize = low + (high - low) / 2;
        let ghost here = views[places@[middle as int] as int].relative;
        assert(here == name_views(files@[places@[middle as int] as int].relative@));
        match path_order(&files[places[middle]].relative, path) {
            Order::Before => {
                assert forall|i: int| 0 <= i < middle + 1 implies path_before(
                    views[(#[trigger] places@[i]) as int].relative,
                    wanted,
                ) by {
                    if low <= i < middle {
                        lemma_path_transitive(
                            views[places@[i] as int].relative,
                            here,
                            wanted,
                        );
                    }
                }
                low = middle + 1;
            },
            Order::Same => {
                assert forall|i: int| 0 <= i < middle implies path_before(
                    views[(#[trigger] places@[i]) as int].relative,
                    wanted,
                ) by {}
                return (middle, true);
            },
            Order::After => {
                assert forall|i: int| middle <= i < places@.len() implies path_before(
                    wanted,
                    views[(#[trigger] places@[i]) as int].relative,
                ) by {
                    if middle < i < high {
                        lemma_path_transitive(
                            wanted,
                            here,
                            views[places@[i] as int].relative,
                        );
                    }
                }
                high = middle;
            },
        }
    }
    (low, false)
}

/// Whether one of the places in a list holds the path.
spec fn holds_path(files: Seq<EntryPlace>, places: Seq<usize>, path: Seq<Seq<u8>>) -> bool {
    exists|i: int|
        0 <= i < places.len() && files[(#[trigger] places[i]) as int].relative == path
}

/// Whether ordered places hold a path.
fn is_held(files: &Vec<LogEntry>, places: &Vec<usize>, path: &Vec<Vec<u8>>) -> (held: bool)
    requires
        in_path_order(entry_places(files@), places@),
    ensures
        held == holds_path(entry_places(files@), places@, name_views(path@)),
{
    let (at, found) = find_path(files, places, path);
    proof {
        if !found {
            assert forall|i: int| 0 <= i < places@.len() implies entry_places(
                files@,
            )[(#[trigger] places@[i]) as int].relative != name_views(path@) by {
                lemma_path_total(
                    entry_places(files@)[places@[i] as int].relative,
                    name_views(path@),
                );
            }
        } else {
            assert(entry_places(files@)[places@[at as int] as int].relative == name_views(path@));
        }
    }
    found
}

/// The logs among files, each path once, in the order of their paths.
fn order_logs(files: &Vec<LogEntry>) -> (places: Vec<usize>)
    ensures
        in_path_order(entry_places(files@), places@),
        forall|i: int|
            0 <= i < places@.len() ==> is_first_log(
                entry_places(files@),
                (#[trigger] places@[i]) as int,
            ),
        forall|f: usize| is_first_log(entry_places(files@), f as int) ==> #[trigger] places@.contains(f),
{
    let ghost views = entry_places(files@);
    let mut places: Vec<usize> = Vec::new();
    let mut f: usize = 0;
    while f < files.len()
        invariant
            views == entry_places(files@),
            f <= files@.len(),
            in_path_order(views, places@),
            forall|i: int|
                0 <= i < places@.len() ==> places@[i] < f && is_first_log(
                    views,
                    (#[trigger] places@[i]) as int,
                ),
            forall|g: usize|
                g < f && is_first_log(views, g as int) ==> #[trigger] places@.contains(g),
        decreases files@.len() - f,
    {
        assert(views[f as int] == files@[f as int]@);
        if is_log(&files[f].name) {
            let (at, found) = find_path(files, &places, &files[f].relative);
            let ghost before = places@;
            if !found {
                proof {
                    assert forall|g: int|
                        0 <= g < f && is_log_name((#[trigger] views[g]).name) implies views[g].relative
                        != views[f as int].relative by {
                        lemma_listed_once(views, before, g);
                        let k = choose|k: int|
                            0 <= k < before.len() && views[(#[trigger] before[k]) as int].relative
                                == views[g].relative;
                        lemma_path_total(
                            views[before[k] as int].relative,
                            views[f as int].relative,
                        );
                    }
                    assert(is_first_log(views, f as int));
                }
                places.insert(at, f);
                proof {
                    let after = places@;
                    assert forall|i: int, j: int| 0 <= i < j < after.len() implies path_before(
                        views[(#[trigger] after[i]) as int].relative,
                        views[(#[trigger] after[j]) as int].relative,
                    ) by {}
                    assert forall|g: usize| g < f + 1 && is_first_log(views, g as int) implies
                        #[trigger] after.contains(g) by {
                        if g < f {
                            assert(before.contains(g));
                            let k = choose|k: int| 0 <= k < before.len() && before[k] == g;
                            if k < at {
                                assert(after[k] == g);
                            } else {
                                assert(after[k + 1] == g);
                            }
                        } else {
                            assert(after[at as int] == g);
                        }
                    }
                }
            } else {
                proof {
                    let g = before[at as int];
                    assert(is_first_log(views, g as int));
                    assert(views[g as int].relative == views[f as int].relative);
                }
            }
        }
        f += 1;
    }
    places
}

/// Every log that was listed has its path among the places.
proof fn lemma_listed_once(files: Seq<EntryPlace>, places: Seq<usize>, at: int)
    requires
        0 <= at < files.len(),
        files.len() <= usize::MAX,
        is_log_name(files[at].name),
        forall|g: usize|
            g <= at && is_first_log(files, g as int) ==> #[trigger] places.contains(g),
    ensures
        exists|k: int|
            0 <= k < places.len() && files[(#[trigger] places[k]) as int].relative
                == files[at].relative,
    decreases at,
{
    if is_first_log(files, at) {
        assert(places.contains(at as usize));
        let k = choose|k: int| 0 <= k < places.len() && places[k] == at as usize;
        assert(files[places[k] as int].relative == files[at].relative);
    } else {
        let g = choose|g: int|
            0 <= g < at && is_log_name((#[trigger] files[g]).name) && files[g].relative
                == files[at].relative;
        lemma_listed_once(files, places, g);
    }
}

/// The place of a log: which home, which directory of it, and which file there.
#[derive(Debug, Clone, Copy, PartialEq, Eq, Structural)]
pub struct LogPlace {
    pub home: usize,
    pub directory: usize,
    pub file: usize,
}

/// Whether one directory stands before another.
pub open spec fn stands_before(home: int, directory: int, later_home: int, later: int) -> bool {
    home < later_home || (home == later_home && directory < later)
}

/// Whether the directory does not stand earlier too.
pub open spec fn is_fresh(homes: Seq<Seq<DirectoryView>>, home: int, directory: int) -> bool {
    forall|h: int, d: int|
        0 <= h < homes.len() && 0 <= d < homes[h].len() && stands_before(h, d, home, directory)
            ==> (#[trigger] homes[h][d]).path != homes[home][directory].path
}

/// Whether a directory holds a log under the path.
pub open spec fn holds_log(directory: DirectoryView, path: Seq<Seq<u8>>) -> bool {
    exists|f: int|
        0 <= f < directory.files.len() && is_log_name((#[trigger] directory.files[f]).name)
            && directory.files[f].relative == path
}

/// Whether the place is one of a directory that there is.
pub open spec fn is_place(homes: Seq<Seq<DirectoryView>>, place: LogPlace) -> bool {
    &&& place.home < homes.len()
    &&& place.directory < homes[place.home as int].len()
    &&& place.file < homes[place.home as int][place.directory as int].files.len()
}

/// Whether no earlier directory of the home holds a log under the path.
pub open spec fn is_new_path(
    homes: Seq<Seq<DirectoryView>>,
    home: int,
    directory: int,
    path: Seq<Seq<u8>>,
) -> bool {
    forall|d: int|
        0 <= d < directory && is_fresh(homes, home, d) ==> !holds_log(
            #[trigger] homes[home][d],
            path,
        )
}

/// Whether the file at the place is read: a log in a directory that does not stand earlier, whose
/// path does not lead to a log in an earlier directory of the same home.
pub open spec fn is_session_log(homes: Seq<Seq<DirectoryView>>, place: LogPlace) -> bool {
    &&& is_place(homes, place)
    &&& is_fresh(homes, place.home as int, place.directory as int)
    &&& is_first_log(
        homes[place.home as int][place.directory as int].files,
        place.file as int,
    )
    &&& is_new_path(
        homes,
        place.home as int,
        place.directory as int,
        homes[place.home as int][place.directory as int].files[place.file as int].relative,
    )
}

/// Whether one file is read before another: by home, by directory, and by path.
pub open spec fn is_read_before(
    homes: Seq<Seq<DirectoryView>>,
    first: LogPlace,
    second: LogPlace,
) -> bool {
    ||| stands_before(
        first.home as int,
        first.directory as int,
        second.home as int,
        second.directory as int,
    )
    ||| first.home == second.home && first.directory == second.directory && path_before(
        homes[first.home as int][first.directory as int].files[first.file as int].relative,
        homes[first.home as int][first.directory as int].files[second.file as int].relative,
    )
}

/// Whether two lists of bytes are the same.
fn same_bytes(left: &Vec<u8>, right: &Vec<u8>) -> (same: bool)
    ensures
        same == (left@ == right@),
{
    proof {
        lemma_bytes_total(left@, right@);
    }
    match name_order(left, right) {
        Order::Same => true,
        _ => false,
    }
}

/// The directory at a place.
proof fn lemma_directory(homes: Seq<Vec<LogDirectory>>, home: int, directory: int)
    requires
        0 <= home < homes.len(),
        0 <= directory < homes[home]@.len(),
    ensures
        home_views(homes).len() == homes.len(),
        home_views(homes)[home].len() == homes[home]@.len(),
        home_views(homes)[home][directory] == homes[home]@[directory]@,
{
}

/// Whether the directory does not stand earlier too.
fn check_fresh(homes: &Vec<Vec<LogDirectory>>, home: usize, directory: usize) -> (fresh: bool)
    requires
        home < homes@.len(),
        directory < homes@[home as int]@.len(),
    ensures
        fresh == is_fresh(home_views(homes@), home as int, directory as int),
{
    let ghost views = home_views(homes@);
    let path = &homes[home][directory].path;
    proof {
        lemma_directory(homes@, home as int, directory as int);
    }
    let mut h: usize = 0;
    while h <= home
        invariant
            views == home_views(homes@),
            home < homes@.len(),
            directory < homes@[home as int]@.len(),
            path@ == views[home as int][directory as int].path,
            h <= home + 1,
            forall|a: int, d: int|
                0 <= a < h && 0 <= d < views[a].len() && stands_before(
                    a,
                    d,
                    home as int,
                    directory as int,
                ) ==> (#[trigger] views[a][d]).path != path@,
        decreases home + 1 - h,
    {
        let limit: usize = if h < home {
            homes[h].len()
        } else {
            directory
        };
        assert(views[h as int].len() == homes@[h as int]@.len());
        let mut d: usize = 0;
        while d < limit
            invariant
                views == home_views(homes@),
                h <= home < homes@.len(),
                directory < homes@[home as int]@.len(),
                limit == (if h < home {
                    homes@[h as int]@.len()
                } else {
                    directory as nat
                }),
                path@ == views[home as int][directory as int].path,
                d <= limit,
                forall|b: int| 0 <= b < d ==> (#[trigger] views[h as int][b]).path != path@,
            decreases limit - d,
        {
            proof {
                lemma_directory(homes@, h as int, d as int);
            }
            if same_bytes(&homes[h][d].path, path) {
                assert(views[h as int][d as int].path == path@);
                assert(stands_before(h as int, d as int, home as int, directory as int));
                return false;
            }
            d += 1;
        }
        assert(home < homes.len());
        h += 1;
    }
    true
}

/// What a list of places holds with one more.
proof fn lemma_place_pushed(places: Seq<LogPlace>, one: LogPlace)
    ensures
        forall|place: LogPlace| #[trigger]
            places.push(one).contains(place) <==> places.contains(place) || place == one,
{
    let after = places.push(one);
    assert forall|place: LogPlace| #[trigger] after.contains(place) <==> places.contains(place)
        || place == one by {
        if places.contains(place) {
            let k = choose|k: int| 0 <= k < places.len() && places[k] == place;
            assert(after[k] == place);
        }
        if place == one {
            assert(after[places.len() as int] == place);
        }
        if after.contains(place) && place != one {
            let k = choose|k: int| 0 <= k < after.len() && after[k] == place;
            assert(places[k] == place);
        }
    }
}

/// The logs of the directories of a home that were read, in the order of their paths.
struct KnownLogs {
    directory: usize,
    places: Vec<usize>,
}

/// Whether the known logs are those of the directories of a home before `upto`.
spec fn knows(
    homes: Seq<Seq<DirectoryView>>,
    home: int,
    upto: int,
    known: Seq<KnownLogs>,
) -> bool {
    &&& forall|k: int|
        0 <= k < known.len() ==> (#[trigger] known[k]).directory < upto && is_fresh(
            homes,
            home,
            known[k].directory as int,
        ) && lists_logs(homes[home][known[k].directory as int].files, known[k].places@)
    &&& forall|d: int|
        0 <= d < upto && #[trigger] is_fresh(homes, home, d) ==> exists|k: int|
            0 <= k < known.len() && (#[trigger] known[k]).directory == d
}

/// Whether places are those of the logs among files, in the order of their paths.
spec fn lists_logs(files: Seq<EntryPlace>, places: Seq<usize>) -> bool {
    &&& files.len() <= usize::MAX
    &&& in_path_order(files, places)
    &&& forall|i: int|
        0 <= i < places.len() ==> is_first_log(files, (#[trigger] places[i]) as int)
    &&& forall|f: usize| is_first_log(files, f as int) ==> #[trigger] places.contains(f)
}

/// Listed logs hold the paths of all logs.
proof fn lemma_listed_paths(directory: DirectoryView, places: Seq<usize>, path: Seq<Seq<u8>>)
    requires
        lists_logs(directory.files, places),
    ensures
        holds_path(directory.files, places, path) == holds_log(directory, path),
{
    let files = directory.files;
    if holds_log(directory, path) {
        let f = choose|f: int|
            0 <= f < files.len() && is_log_name((#[trigger] files[f]).name) && files[f].relative
                == path;
        lemma_listed_once(files, places, f);
        let k = choose|k: int|
            0 <= k < places.len() && files[(#[trigger] places[k]) as int].relative
                == files[f].relative;
        assert(files[places[k] as int].relative == path);
    }
    if holds_path(files, places, path) {
        let i = choose|i: int|
            0 <= i < places.len() && files[(#[trigger] places[i]) as int].relative == path;
        assert(is_log_name(files[places[i] as int].name));
    }
}

/// Whether no earlier directory of the home holds a log under the path.
fn check_new_path(
    homes: &Vec<Vec<LogDirectory>>,
    home: usize,
    directory: usize,
    known: &Vec<KnownLogs>,
    path: &Vec<Vec<u8>>,
) -> (new: bool)
    requires
        home < homes@.len(),
        directory < homes@[home as int]@.len(),
        knows(home_views(homes@), home as int, directory as int, known@),
    ensures
        new == is_new_path(home_views(homes@), home as int, directory as int, name_views(path@)),
{
    let ghost views = home_views(homes@);
    let ghost wanted = name_views(path@);
    let mut k: usize = 0;
    while k < known.len()
        invariant
            views == home_views(homes@),
            wanted == name_views(path@),
            home < homes@.len(),
            directory < homes@[home as int]@.len(),
            knows(views, home as int, directory as int, known@),
            k <= known@.len(),
            forall|j: int|
                0 <= j < k ==> !holds_log(
                    views[home as int][(#[trigger] known@[j]).directory as int],
                    wanted,
                ),
        decreases known@.len() - k,
    {
        let at: usize = known[k].directory;
        assert(known@[k as int].directory < directory);
        proof {
            lemma_directory(homes@, home as int, at as int);
            lemma_listed_paths(views[home as int][at as int], known@[k as int].places@, wanted);
        }
        if is_held(&homes[home][at].files, &known[k].places, path) {
            assert(holds_log(views[home as int][at as int], wanted));
            return false;
        }
        k += 1;
    }
    assert forall|d: int| 0 <= d < directory && is_fresh(views, home as int, d) implies !holds_log(
        #[trigger] views[home as int][d],
        wanted,
    ) by {
        let j = choose|j: int| 0 <= j < known@.len() && (#[trigger] known@[j]).directory == d;
        assert(known@[j].directory == d);
    }
    true
}

/// Whether the places read are those before a directory, in the order in which they are read.
spec fn has_read(
    homes: Seq<Seq<DirectoryView>>,
    places: Seq<LogPlace>,
    home: int,
    directory: int,
) -> bool {
    &&& forall|place: LogPlace| #[trigger]
        places.contains(place) <==> is_session_log(homes, place) && stands_before(
            place.home as int,
            place.directory as int,
            home,
            directory,
        )
    &&& are_in_order(homes, places)
}

/// Whether places are in the order in which they are read.
pub open spec fn are_in_order(homes: Seq<Seq<DirectoryView>>, places: Seq<LogPlace>) -> bool {
    forall|i: int, j: int|
        0 <= i < j < places.len() ==> is_read_before(
            homes,
            #[trigger] places[i],
            #[trigger] places[j],
        )
}

/// Adds the logs of one directory.
fn read_directory(
    homes: &Vec<Vec<LogDirectory>>,
    home: usize,
    directory: usize,
    known: &mut Vec<KnownLogs>,
    out: &mut Vec<LogPlace>,
)
    requires
        home < homes@.len(),
        directory < homes@[home as int]@.len(),
        knows(home_views(homes@), home as int, directory as int, old(known)@),
        has_read(home_views(homes@), old(out)@, home as int, directory as int),
    ensures
        knows(home_views(homes@), home as int, directory + 1, final(known)@),
        has_read(home_views(homes@), final(out)@, home as int, directory + 1),
{
    let ghost views = home_views(homes@);
    let ghost files = views[home as int][directory as int].files;
    proof {
        lemma_directory(homes@, home as int, directory as int);
    }
    if !check_fresh(homes, home, directory) {
        assert forall|place: LogPlace| #[trigger] out@.contains(place) <==> is_session_log(
            views,
            place,
        ) && stands_before(
            place.home as int,
            place.directory as int,
            home as int,
            directory + 1,
        ) by {}
        return;
    }
    let entries = &homes[home][directory].files;
    let places = order_logs(entries);
    assert(entries.len() == files.len());
    let ghost before = out@;
    let mut k: usize = 0;
    while k < places.len()
        invariant
            views == home_views(homes@),
            home < homes@.len(),
            directory < homes@[home as int]@.len(),
            files == views[home as int][directory as int].files,
            entry_places(entries@) == files,
            *entries == homes@[home as int]@[directory as int].files,
            lists_logs(files, places@),
            is_fresh(views, home as int, directory as int),
            knows(views, home as int, directory as int, known@),
            k <= places@.len(),
            are_in_order(views, out@),
            forall|place: LogPlace| #[trigger]
                out@.contains(place) <==> is_session_log(views, place) && (stands_before(
                    place.home as int,
                    place.directory as int,
                    home as int,
                    directory as int,
                ) || (place.home == home && place.directory == directory && places@.take(
                    k as int,
                ).contains(place.file))),
        decreases places@.len() - k,
    {
        let file: usize = places[k];
        let ghost one = LogPlace { home, directory, file };
        let ghost known_places = out@;
        let ghost taken = places@.take(k as int);
        let ghost next = places@.take(k + 1);
        assert(is_first_log(files, places@[k as int] as int));
        assert(files[file as int] == entries@[file as int]@);
        let new = check_new_path(homes, home, directory, known, &entries[file].relative);
        assert(new == is_session_log(views, one));
        proof {
            assert forall|f: usize| next.contains(f) <==> taken.contains(f) || f == file by {
                if next.contains(f) {
                    let i = choose|i: int| 0 <= i < next.len() && next[i] == f;
                    if i < k {
                        assert(taken[i] == f);
                    }
                }
                if taken.contains(f) {
                    let i = choose|i: int| 0 <= i < taken.len() && taken[i] == f;
                    assert(next[i] == f);
                }
                assert(next[k as int] == file);
            }
        }
        if new {
            out.push(LogPlace { home, directory, file });
            proof {
                lemma_place_pushed(known_places, one);
                assert forall|i: int, j: int| 0 <= i < j < out@.len() implies is_read_before(
                    views,
                    #[trigger] out@[i],
                    #[trigger] out@[j],
                ) by {
                    if j == known_places.len() {
                        let earlier = known_places[i];
                        assert(known_places.contains(earlier));
                        if earlier.home == home && earlier.directory == directory {
                            let m = choose|m: int|
                                0 <= m < taken.len() && taken[m] == earlier.file;
                            assert(places@[m] == earlier.file);
                            assert(path_before(
                                files[places@[m] as int].relative,
                                files[places@[k as int] as int].relative,
                            ));
                        }
                    } else {
                        assert(is_read_before(views, known_places[i], known_places[j]));
                    }
                }
            }
        }
        k += 1;
    }
    proof {
        assert(places@.take(places@.len() as int) =~= places@);
        assert forall|place: LogPlace| #[trigger] out@.contains(place) <==> is_session_log(
            views,
            place,
        ) && stands_before(
            place.home as int,
            place.directory as int,
            home as int,
            directory + 1,
        ) by {
            if is_session_log(views, place) && place.home == home && place.directory == directory {
                assert(places@.contains(place.file));
            }
        }
    }
    let ghost known_before = known@;
    known.push(KnownLogs { directory, places });
    proof {
        assert forall|d: int| 0 <= d < directory + 1 && #[trigger] is_fresh(
            views,
            home as int,
            d,
        ) implies exists|j: int|
            0 <= j < known@.len() && (#[trigger] known@[j]).directory == d by {
            if d < directory {
                let j = choose|j: int|
                    0 <= j < known_before.len() && (#[trigger] known_before[j]).directory == d;
                assert(known@[j].directory == d);
            } else {
                assert(known@[known_before.len() as int].directory == d);
            }
        }
    }
}

/// The files that hold the logs of sessions, home by home, directory by directory, in the order of
/// their paths.
pub fn discover_session_files(homes: &Vec<Vec<LogDirectory>>) -> (out: Vec<LogPlace>)
    ensures
        forall|place: LogPlace| #[trigger]
            out@.contains(place) <==> is_session_log(home_views(homes@), place),
        are_in_order(home_views(homes@), out@),
{
    let ghost views = home_views(homes@);
    let mut out: Vec<LogPlace> = Vec::new();
    let mut home: usize = 0;
    while home < homes.len()
        invariant
            views == home_views(homes@),
            home <= homes@.len(),
            has_read(views, out@, home as int, 0),
        decreases homes@.len() - home,
    {
        let mut known: Vec<KnownLogs> = Vec::new();
        let mut directory: usize = 0;
        while directory < homes[home].len()
            invariant
                views == home_views(homes@),
                home < homes@.len(),
                directory <= homes@[home as int]@.len(),
                knows(views, home as int, directory as int, known@),
                has_read(views, out@, home as int, directory as int),
            decreases homes@[home as int]@.len() - directory,
        {
            read_directory(homes, home, directory, &mut known, &mut out);
            directory += 1;
        }
        proof {
            assert(views[home as int].len() == homes@[home as int]@.len());
            assert forall|place: LogPlace| #[trigger] out@.contains(place) <==> is_session_log(
                views,
                place,
            ) && stands_before(place.home as int, place.directory as int, home + 1, 0) by {}
        }
        home += 1;
    }
    out
}

/// A log in the active sessions of a home is read in place of one under the same path in its
/// archived sessions.
pub proof fn active_sessions_win_over_archived_ones(
    homes: Seq<Seq<DirectoryView>>,
    active: LogPlace,
    archived: LogPlace,
)
    requires
        is_place(homes, active),
        is_place(homes, archived),
        active.home == archived.home,
        active.directory < archived.directory,
        is_fresh(homes, active.home as int, active.directory as int),
        is_log_name(
            homes[active.home as int][active.directory as int].files[active.file as int].name,
        ),
        homes[active.home as int][active.directory as int].files[active.file as int].relative
            == homes[archived.home as int][archived.directory as int].files[archived.file as int].relative,
    ensures
        !is_session_log(homes, archived),
{
    let directory = homes[active.home as int][active.directory as int];
    assert(is_log_name(directory.files[active.file as int].name));
    assert(holds_log(directory, directory.files[active.file as int].relative));
}

/// No directory is read twice.
pub proof fn no_directory_is_read_twice(
    homes: Seq<Seq<DirectoryView>>,
    first: LogPlace,
    second: LogPlace,
)
    requires
        is_session_log(homes, first),
        is_session_log(homes, second),
        homes[first.home as int][first.directory as int].path
            == homes[second.home as int][second.directory as int].path,
    ensures
        first.home == second.home && first.directory == second.directory,
{
    let one = homes[first.home as int][first.directory as int];
    let other = homes[second.home as int][second.directory as int];
    assert(one.path == other.path);
}

} // verus!
