//! Recorded clips and snapshots: where they are stored, which files count as
//! clips or snapshots, their listing newest first, which ones the retention
//! rules remove and in which order, and the listing of database backups.
use vstd::prelude::*;
use vstd::relations::sorted_by;
use vstd::seq_lib::{to_multiset_build, to_multiset_insert};
use crate::devices::strs;
use crate::order::{sort_strings, string_le};
use crate::text::{
    extend_str,
    chars_of, ends_with, extend_chars, has_prefix, has_suffix, starts_with, string_from_chars,
    views,
};

verus! {

/// `Path::join` on Unix: an absolute `name` replaces `dir`; otherwise `name`
/// follows `dir`, with a `/` between them where `dir` is not empty and does not
/// end with one.
pub open spec fn join_path(dir: Seq<char>, name: Seq<char>) -> Seq<char> {
    if name.len() > 0 && name[0] == '/' {
        name
    } else if dir.len() > 0 && dir.last() != '/' {
        dir + seq!['/'] + name
    } else {
        dir + name
    }
}

pub fn join_path_exec(dir: &str, name: &str) -> (r: String)
    ensures
        r@ == join_path(dir@, name@),
{
    let d = chars_of(dir);
    let n = chars_of(name);
    if n.len() > 0 && n[0] == '/' {
        return string_from_chars(n.as_slice());
    }
    let mut out = d;
    if out.len() > 0 && out[out.len() - 1] != '/' {
        out.push('/');
    }
    extend_chars(&mut out, n.as_slice());
    string_from_chars(out.as_slice())
}

/// `Path::exists`: whether a file is found at `path` (following symbolic links).
/// What it returns depends on the file system, so nothing is stated of it.
#[verifier::external_body]
fn path_exists(path: &str) -> bool {
    std::path::Path::new(path).exists()
}

/// The clip directory and its retention limits.
pub struct ClipManager {
    pub clip_dir: String,
    pub max_retention_days: u32,
    pub max_disk_usage_pct: u8,
}

impl ClipManager {
    pub fn new(clip_dir: &str, max_retention_days: u32, max_disk_usage_pct: u8) -> (r: Self)
        ensures
            r.clip_dir@ == clip_dir@,
            r.max_retention_days == max_retention_days,
            r.max_disk_usage_pct == max_disk_usage_pct,
    {
        ClipManager { clip_dir: clip_dir.to_owned(), max_retention_days, max_disk_usage_pct }
    }

    /// The path of a file of the clip directory, where a file is found there.
    /// Whether one is found is for the file system to say: the path asked about
    /// is `join_path(clip_dir, filename)`, and `found_clip_path` gives the result
    /// for each answer.
    pub fn clip_path(&self, filename: &str) -> (r: Option<String>)
        ensures
            r matches Some(p) ==> p@ == join_path(self.clip_dir@, filename@),
    {
        let p = join_path_exec(self.clip_dir.as_str(), filename);
        let found = path_exists(p.as_str());
        self.found_clip_path(filename, found)
    }

    /// The message given when a clip to delete is not there.
    pub fn not_found_message(filename: &str) -> (r: String)
        ensures
            r@ == "clip not found: "@ + filename@,
    {
        let mut b = chars_of("clip not found: ");
        extend_str(&mut b, filename);
        string_from_chars(b.as_slice())
    }

    /// The file to remove for deleting the clip `filename`: its path in the clip
    /// directory where a file is found there, else the error that it was not
    /// found. Whether it is found is for the file system to say (see `clip_path`).
    pub fn delete_target(&self, filename: &str) -> (r: Result<String, String>)
        ensures
            r matches Ok(p) ==> p@ == join_path(self.clip_dir@, filename@),
            r matches Err(e) ==> e@ == "clip not found: "@ + filename@,
    {
        match self.clip_path(filename) {
            Some(p) => Ok(p),
            None => Err(Self::not_found_message(filename)),
        }
    }

    /// The result of `clip_path` once it is known whether a file exists at
    /// `join_path(clip_dir, filename)`: that path when it does, else `None`.
    pub fn found_clip_path(&self, filename: &str, exists: bool) -> (r: Option<String>)
        ensures
            exists ==> (r matches Some(p) && p@ == join_path(self.clip_dir@, filename@)),
            !exists ==> r is None,
    {
        if exists {
            Some(join_path_exec(self.clip_dir.as_str(), filename))
        } else {
            None
        }
    }
}

/// A recorded video: `clip_…` ending in `.h264` or `.mp4`.
pub open spec fn is_clip_name(n: Seq<char>) -> bool {
    has_prefix(n, "clip_"@) && (has_suffix(n, ".h264"@) || has_suffix(n, ".mp4"@))
}

/// A snapshot: `snap_…` ending in `.jpg`.
pub open spec fn is_snapshot_name(n: Seq<char>) -> bool {
    has_prefix(n, "snap_"@) && has_suffix(n, ".jpg"@)
}

/// A file that the retention rules look after: `clip_…` or `snap_…`.
pub open spec fn is_retained_name(n: Seq<char>) -> bool {
    has_prefix(n, "clip_"@) || has_prefix(n, "snap_"@)
}

pub fn is_clip_file(name: &str) -> (r: bool)
    ensures
        r == is_clip_name(name@),
{
    let n = chars_of(name);
    starts_with(n.as_slice(), chars_of("clip_").as_slice()) && (ends_with(
        n.as_slice(),
        chars_of(".h264").as_slice(),
    ) || ends_with(n.as_slice(), chars_of(".mp4").as_slice()))
}

pub fn is_snapshot_file(name: &str) -> (r: bool)
    ensures
        r == is_snapshot_name(name@),
{
    let n = chars_of(name);
    starts_with(n.as_slice(), chars_of("snap_").as_slice()) && ends_with(
        n.as_slice(),
        chars_of(".jpg").as_slice(),
    )
}

pub fn is_retained_file(name: &str) -> (r: bool)
    ensures
        r == is_retained_name(name@),
{
    let n = chars_of(name);
    starts_with(n.as_slice(), chars_of("clip_").as_slice()) || starts_with(
        n.as_slice(),
        chars_of("snap_").as_slice(),
    )
}

/// A file of the clip directory: its name, size, and time of last change in
/// seconds since the epoch.
pub struct ClipInfo {
    pub filename: String,
    pub size_bytes: u64,
    pub timestamp: i64,
}

pub struct ClipView {
    pub filename: Seq<char>,
    pub size_bytes: u64,
    pub timestamp: i64,
}

impl View for ClipInfo {
    type V = ClipView;

    open spec fn view(&self) -> ClipView {
        ClipView { filename: self.filename@, size_bytes: self.size_bytes, timestamp: self.timestamp }
    }
}

pub open spec fn clip_views(s: Seq<ClipInfo>) -> Seq<ClipView> {
    s.map_values(|c: ClipInfo| c@)
}

pub open spec fn newer_or_same() -> spec_fn(ClipView, ClipView) -> bool {
    |a: ClipView, b: ClipView| a.timestamp >= b.timestamp
}

/// The files whose names satisfy `keep`, in their order.
pub open spec fn filter_clips(s: Seq<ClipView>, keep: spec_fn(Seq<char>) -> bool) -> Seq<ClipView>
    decreases s.len(),
{
    if s.len() == 0 {
        Seq::empty()
    } else {
        let rest = filter_clips(s.drop_last(), keep);
        if keep(s.last().filename) {
            rest.push(s.last())
        } else {
            rest
        }
    }
}

/// Keeps the files that `kind` selects (clips, or snapshots) and orders them
/// newest first.
fn select_newest_first(files: Vec<ClipInfo>, snapshots: bool) -> (r: Vec<ClipInfo>)
    ensures
        sorted_by(clip_views(r@), newer_or_same()),
        clip_views(r@).to_multiset() == filter_clips(
            clip_views(files@),
            if snapshots {
                |n: Seq<char>| is_snapshot_name(n)
            } else {
                |n: Seq<char>| is_clip_name(n)
            },
        ).to_multiset(),
{
    let ghost keep = if snapshots {
        |n: Seq<char>| is_snapshot_name(n)
    } else {
        |n: Seq<char>| is_clip_name(n)
    };
    let ghost le = newer_or_same();
    let ghost input = clip_views(files@);
    let mut out: Vec<ClipInfo> = Vec::new();
    let mut rest = files;
    proof {
        assert(clip_views(out@) =~= Seq::<ClipView>::empty());
        assert(input.take(0) =~= Seq::<ClipView>::empty());
    }
    let n = rest.len();
    let mut i: usize = 0;
    while i < n
        invariant
            n == input.len(),
            i <= n,
            rest@.len() == n - i,
            clip_views(rest@) == input.skip(i as int),
            le == newer_or_same(),
            sorted_by(clip_views(out@), le),
            clip_views(out@).to_multiset() == filter_clips(input.take(i as int), keep).to_multiset(),
            keep == (if snapshots {
                |n: Seq<char>| is_snapshot_name(n)
            } else {
                |n: Seq<char>| is_clip_name(n)
            }),
        decreases n - i,
    {
        let ghost prev_rest = rest@;
        let item = rest.remove(0);
        proof {
            assert(item == prev_rest[0]);
            assert(clip_views(prev_rest)[0] == item@);
            assert(input.skip(i as int)[0] == input[i as int]);
            assert(rest@ =~= prev_rest.drop_first());
            assert(clip_views(prev_rest) == input.skip(i as int));
            assert forall|k: int| 0 <= k < rest@.len() implies #[trigger] clip_views(rest@)[k]
                == input.skip(i + 1)[k] by {
                assert(rest@[k] == prev_rest[k + 1]);
                assert(clip_views(prev_rest)[k + 1] == input.skip(i as int)[k + 1]);
            }
            assert(clip_views(rest@) =~= input.skip(i + 1));
            assert(item@ == input[i as int]);
            assert(input.take(i + 1).drop_last() =~= input.take(i as int));
            assert(input.take(i + 1).last() == item@);
        }
        let wanted = if snapshots {
            is_snapshot_file(item.filename.as_str())
        } else {
            is_clip_file(item.filename.as_str())
        };
        if wanted {
            let mut pos: usize = 0;
            while pos < out.len() && out[pos].timestamp >= item.timestamp
                invariant
                    pos <= out@.len(),
                    forall|j: int| 0 <= j < pos ==> #[trigger] clip_views(out@)[j].timestamp >= item.timestamp,
                decreases out@.len() - pos,
            {
                assert(clip_views(out@)[pos as int] == out@[pos as int]@);
                pos = pos + 1;
            }
            let ghost before = clip_views(out@);
            proof {
                if pos < out@.len() {
                    assert(before[pos as int] == out@[pos as int]@);
                }
            }
            let ghost iv = item@;
            out.insert(pos, item);
            proof {
                let after = clip_views(out@);
                assert(after =~= before.insert(pos as int, iv));
                assert forall|a: int, b: int| 0 <= a < b < after.len() implies #[trigger] le(
                    after[a],
                    after[b],
                ) by {
                    if b < pos {
                        assert(le(before[a], before[b]));
                    } else if b == pos {
                    } else if a < pos {
                        assert(before[a].timestamp >= iv.timestamp);
                        if pos < before.len() {
                            assert(le(before[pos as int], before[b - 1]) || pos == b - 1);
                        }
                    } else if a == pos {
                        if b - 1 > pos {
                            assert(le(before[pos as int], before[b - 1]));
                        }
                    } else {
                        assert(le(before[a - 1], before[b - 1]));
                    }
                }
                to_multiset_insert(before, pos as int, iv);
                to_multiset_build(filter_clips(input.take(i as int), keep), iv);
            }
        } else {
            assert(filter_clips(input.take(i + 1), keep) == filter_clips(input.take(i as int), keep));
        }
        i = i + 1;
    }
    proof {
        assert(input.take(n as int) =~= input);
    }
    out
}

/// The clips, newest first.
pub fn select_clips(files: Vec<ClipInfo>) -> (r: Vec<ClipInfo>)
    ensures
        sorted_by(clip_views(r@), newer_or_same()),
        clip_views(r@).to_multiset() == filter_clips(
            clip_views(files@),
            |n: Seq<char>| is_clip_name(n),
        ).to_multiset(),
{
    select_newest_first(files, false)
}

/// The snapshots, newest first.
pub fn select_snapshots(files: Vec<ClipInfo>) -> (r: Vec<ClipInfo>)
    ensures
        sorted_by(clip_views(r@), newer_or_same()),
        clip_views(r@).to_multiset() == filter_clips(
            clip_views(files@),
            |n: Seq<char>| is_snapshot_name(n),
        ).to_multiset(),
{
    select_newest_first(files, true)
}

/// Whether a file last changed at `modified` (seconds since the epoch, none
/// where unknown) is older than the retention period at instant `now`
/// (nanoseconds since the epoch): a file of unknown age is kept.
pub open spec fn expired_spec(modified: Option<i64>, now: i64, days: u32) -> bool {
    match modified {
        Some(m) => m * 1_000_000_000 < now - days * 86_400_000_000_000,
        None => false,
    }
}

pub fn is_expired(modified: Option<i64>, now: i64, days: u32) -> (r: bool)
    ensures
        r == expired_spec(modified, now, days),
{
    match modified {
        Some(m) => (m as i128) * 1_000_000_000 < (now as i128) - (days as i128) * 86_400_000_000_000,
        None => false,
    }
}

/// Whether entry `i` of a listing is removed for its age: a clip or snapshot
/// older than the retention period.
pub open spec fn expired_entry(
    names: Seq<String>,
    modified: Seq<Option<i64>>,
    i: int,
    now: i64,
    days: u32,
) -> bool {
    is_retained_name(names[i]@) && expired_spec(modified[i], now, days)
}

/// The entries of a listing (names, with the time each last changed, where known)
/// that the retention period removes, in listing order: exactly the clips and
/// snapshots older than `days` days at `now` (nanoseconds since the epoch).
pub fn expired_entries(names: &Vec<String>, modified: &Vec<Option<i64>>, now: i64, days: u32) -> (r:
    Vec<usize>)
    requires
        names@.len() == modified@.len(),
    ensures
        forall|k: int|
            0 <= k < r@.len() ==> r@[k] < names@.len() && expired_entry(
                names@,
                modified@,
                #[trigger] r@[k] as int,
                now,
                days,
            ),
        forall|k: int, l: int| 0 <= k < l < r@.len() ==> r@[k] < r@[l],
        forall|i: int|
            0 <= i < names@.len() && expired_entry(names@, modified@, i, now, days) ==> exists|k: int|
                0 <= k < r@.len() && #[trigger] r@[k] == i,
{
    let mut out: Vec<usize> = Vec::new();
    let mut i: usize = 0;
    while i < names.len()
        invariant
            i <= names@.len(),
            names@.len() == modified@.len(),
            forall|k: int|
                0 <= k < out@.len() ==> out@[k] < i && expired_entry(
                    names@,
                    modified@,
                    #[trigger] out@[k] as int,
                    now,
                    days,
                ),
            forall|k: int, l: int| 0 <= k < l < out@.len() ==> out@[k] < out@[l],
            forall|j: int|
                0 <= j < i && expired_entry(names@, modified@, j, now, days) ==> exists|k: int|
                    0 <= k < out@.len() && #[trigger] out@[k] == j,
        decreases names@.len() - i,
    {
        if is_retained_file(names[i].as_str()) && is_expired(modified[i], now, days) {
            let ghost before = out@;
            out.push(i);
            assert(out@[before.len() as int] == i);
            assert forall|j: int|
                0 <= j < i + 1 && expired_entry(names@, modified@, j, now, days) implies exists|k: int|
                0 <= k < out@.len() && #[trigger] out@[k] == j by {
                if j < i {
                    let k = choose|k: int| 0 <= k < before.len() && #[trigger] before[k] == j;
                    assert(out@[k] == j);
                }
            }
        }
        i = i + 1;
    }
    out
}

/// `i` goes before `j` when pruning for space: older first, and in listing
/// order among files of the same age.
pub open spec fn prune_before(keys: Seq<i128>, i: int, j: int) -> bool {
    keys[i] < keys[j] || (keys[i] == keys[j] && i < j)
}

/// The order in which files are removed to free space: the indices of `keys`
/// (the files' times of last change), oldest first, files of the same age in
/// their listing order.
pub fn prune_order(keys: &Vec<i128>) -> (r: Vec<usize>)
    ensures
        r@.len() == keys@.len(),
        forall|k: int| 0 <= k < r@.len() ==> r@[k] < keys@.len(),
        forall|a: int, b: int| 0 <= a < b < r@.len() ==> prune_before(keys@, r@[a] as int, r@[b] as int),
{
    let mut out: Vec<usize> = Vec::new();
    let mut i: usize = 0;
    while i < keys.len()
        invariant
            i <= keys@.len(),
            out@.len() == i,
            forall|k: int| 0 <= k < out@.len() ==> out@[k] < i,
            forall|a: int, b: int| 0 <= a < b < out@.len() ==> prune_before(keys@, out@[a] as int, out@[b] as int),
        decreases keys@.len() - i,
    {
        let mut pos: usize = 0;
        while pos < out.len() && keys[out[pos]] <= keys[i]
            invariant
                pos <= out@.len(),
                i < keys@.len(),
                forall|k: int| 0 <= k < out@.len() ==> out@[k] < i,
                forall|j: int| 0 <= j < pos ==> keys@[#[trigger] out@[j] as int] <= keys@[i as int],
            decreases out@.len() - pos,
        {
            pos = pos + 1;
        }
        let ghost before = out@;
        out.insert(pos, i);
        proof {
            let after = out@;
            assert(after =~= before.insert(pos as int, i));
            assert forall|a: int, b: int| 0 <= a < b < after.len() implies prune_before(
                keys@,
                after[a] as int,
                after[b] as int,
            ) by {
                if b < pos {
                    assert(prune_before(keys@, before[a] as int, before[b] as int));
                } else if b == pos {
                    assert(keys@[before[a] as int] <= keys@[i as int]);
                    assert(before[a] < i);
                } else if a < pos {
                    assert(keys@[before[a] as int] <= keys@[i as int]);
                    assert(keys@[i as int] < keys@[before[pos as int] as int]);
                    if b - 1 > pos {
                        assert(prune_before(keys@, before[pos as int] as int, before[b - 1] as int));
                    }
                    assert(prune_before(keys@, before[a] as int, before[b - 1] as int));
                } else if a == pos {
                    assert(keys@[i as int] < keys@[before[pos as int] as int]);
                    if b - 1 > pos {
                        assert(prune_before(keys@, before[pos as int] as int, before[b - 1] as int));
                    }
                } else {
                    assert(prune_before(keys@, before[a - 1] as int, before[b - 1] as int));
                }
            }
        }
        i = i + 1;
    }
    out
}

/// The backup files (`….db`), newest name first.
pub open spec fn backup_names(names: Seq<Seq<char>>) -> Seq<Seq<char>>
    decreases names.len(),
{
    if names.len() == 0 {
        Seq::empty()
    } else {
        let rest = backup_names(names.drop_last());
        if has_suffix(names.last(), ".db"@) {
            rest.push(names.last())
        } else {
            rest
        }
    }
}

/// The database backups among the names of the backup directory, in reverse
/// order of strings.
pub fn list_backups(names: &Vec<String>) -> (r: Vec<String>)
    ensures
        strs(r@) == backup_names(strs(names@)).sort_by(string_le()).reverse(),
{
    let ghost ns = strs(names@);
    let mut found: Vec<Vec<char>> = Vec::new();
    let mut i: usize = 0;
    let db = chars_of(".db");
    assert(ns.take(0) =~= Seq::<Seq<char>>::empty());
    while i < names.len()
        invariant
            i <= names@.len(),
            ns == strs(names@),
            db@ == ".db"@,
            views(found@) == backup_names(ns.take(i as int)),
        decreases names@.len() - i,
    {
        let n = chars_of(names[i].as_str());
        assert(ns.take(i + 1).drop_last() =~= ns.take(i as int));
        assert(ns.take(i + 1).last() == n@);
        if ends_with(n.as_slice(), db.as_slice()) {
            let ghost before = views(found@);
            found.push(n);
            assert(views(found@) =~= before.push(ns[i as int]));
        }
        i = i + 1;
    }
    assert(ns.take(i as int) =~= ns);
    let sorted = sort_strings(found);
    let mut r: Vec<String> = Vec::new();
    let mut k: usize = sorted.len();
    let ghost sv = views(sorted@);
    while k > 0
        invariant
            k <= sorted@.len(),
            sv == views(sorted@),
            strs(r@) == sv.reverse().take(sv.len() - k),
        decreases k,
    {
        k = k - 1;
        let s = string_from_chars(sorted[k].as_slice());
        let ghost before = strs(r@);
        r.push(s);
        assert(sv[k as int] == sorted@[k as int]@);
        assert(sv.reverse()[sv.len() - 1 - k] == sv[k as int]);
        assert(strs(r@) =~= before.push(sv[k as int]));
        assert(strs(r@) =~= sv.reverse().take(sv.len() - k));
    }
    assert(sv.reverse().take(sv.len() as int) =~= sv.reverse());
    r
}


/// The content type a file of the clip directory is served with, by its ending.
pub open spec fn clip_content_type_spec(name: Seq<char>) -> Seq<char> {
    if has_suffix(name, ".jpg"@) {
        "image/jpeg"@
    } else if has_suffix(name, ".h264"@) {
        "video/h264"@
    } else if has_suffix(name, ".mp4"@) {
        "video/mp4"@
    } else {
        "application/octet-stream"@
    }
}

pub fn clip_content_type(name: &str) -> (r: &'static str)
    ensures
        r@ == clip_content_type_spec(name@),
{
    let n = chars_of(name);
    if ends_with(n.as_slice(), chars_of(".jpg").as_slice()) {
        "image/jpeg"
    } else if ends_with(n.as_slice(), chars_of(".h264").as_slice()) {
        "video/h264"
    } else if ends_with(n.as_slice(), chars_of(".mp4").as_slice()) {
        "video/mp4"
    } else {
        "application/octet-stream"
    }
}


/// Where a backup of the database taken at `stamp` (`YYYYmmdd-HHMMSS`) goes.
pub fn backup_file_path(stamp: &str) -> (r: String)
    ensures
        r@ == "/var/lib/pi-kiosk/backups/kiosk-backup-"@ + stamp@ + ".db"@,
{
    let mut b = chars_of("/var/lib/pi-kiosk/backups/kiosk-backup-");
    crate::text::extend_str(&mut b, stamp);
    crate::text::extend_str(&mut b, ".db");
    string_from_chars(b.as_slice())
}

/// The file a backup named `name` is restored from.
pub fn backup_source_path(name: &str) -> (r: String)
    ensures
        r@ == "/var/lib/pi-kiosk/backups/"@ + name@,
{
    let mut b = chars_of("/var/lib/pi-kiosk/backups/");
    crate::text::extend_str(&mut b, name);
    string_from_chars(b.as_slice())
}

} // verus!
