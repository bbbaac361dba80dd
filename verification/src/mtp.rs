//! Media devices (MTP): choosing a storage, naming folders, summing up
//! uploads to several devices, and the state of the interactive folder
//! browser. The device connection itself lives outside the library.

use vstd::prelude::*;

use crate::opml::string_views;
use crate::sync::{sanitize_filename, sanitized};
use crate::text::{chars_of, decimal, push_decimal, split_on, string_of};

verus! {

// ---------------------------------------------------------------------------
// Storages
// ---------------------------------------------------------------------------

/// The kind of a device storage, as the device reports it.
#[derive(Debug, Clone, Copy, PartialEq, Eq, Structural)]
pub enum StorageKind {
    FixedRom,
    RemovableRom,
    FixedRam,
    RemovableRam,
    Other,
}

/// The label the storage picker shows for a kind of storage.
pub open spec fn storage_label_spec(kind: StorageKind) -> Seq<char> {
    match kind {
        StorageKind::RemovableRam | StorageKind::RemovableRom => "SD card"@,
        StorageKind::FixedRam => "Internal"@,
        StorageKind::FixedRom => "ROM (read-only)"@,
        StorageKind::Other => "Other"@,
    }
}

/// Human-readable summary of a storage for the storage picker.
#[derive(Debug, Clone)]
pub struct MtpStorageDisplay {
    pub index: usize,
    pub description: String,
    pub free_space: u64,
    pub total_capacity: u64,
    pub label: String,
}

/// The label of a kind of storage: `SD card`, `Internal`,
/// `ROM (read-only)` or `Other`.
pub fn storage_label(kind: StorageKind) -> (r: String)
    ensures
        r@ == storage_label_spec(kind),
{
    match kind {
        StorageKind::RemovableRam | StorageKind::RemovableRom => String::from_str("SD card"),
        StorageKind::FixedRam => String::from_str("Internal"),
        StorageKind::FixedRom => String::from_str("ROM (read-only)"),
        StorageKind::Other => String::from_str("Other"),
    }
}

/// The picker entry of the storage at `index`.
pub fn storage_display(
    index: usize,
    description: &str,
    free_space: u64,
    total_capacity: u64,
    kind: StorageKind,
) -> (r: MtpStorageDisplay)
    ensures
        r.index == index,
        r.description@ == description@,
        r.free_space == free_space,
        r.total_capacity == total_capacity,
        r.label@ == storage_label_spec(kind),
{
    MtpStorageDisplay {
        index,
        description: String::from_str(description),
        free_space,
        total_capacity,
        label: storage_label(kind),
    }
}

/// The index of the first storage with free space, given each storage's
/// free space.
pub fn first_writable(free_space: &[u64]) -> (r: Option<usize>)
    ensures
        match r {
            Some(i) => i < free_space@.len() && free_space@[i as int] > 0 && forall|j: int|
                0 <= j < i ==> free_space@[j] == 0,
            None => forall|j: int| 0 <= j < free_space@.len() ==> free_space@[j] == 0,
        },
{
    let mut i: usize = 0;
    while i < free_space.len()
        invariant
            i <= free_space@.len(),
            forall|j: int| 0 <= j < i ==> free_space@[j] == 0,
        decreases free_space@.len() - i,
    {
        if free_space[i] > 0 {
            return Some(i);
        }
        i = i + 1;
    }
    None
}

/// The storage a browser opens on: the first with free space, else the
/// first; a device without storages is an error.
pub fn pick_storage(free_space: &[u64]) -> (r: Result<usize, String>)
    ensures
        match r {
            Ok(i) => free_space@.len() > 0 && i < free_space@.len() && (free_space@[i as int] > 0
                || (i == 0 && forall|j: int| 0 <= j < free_space@.len() ==> free_space@[j] == 0))
                && forall|j: int| 0 <= j < i ==> free_space@[j] == 0,
            Err(e) => free_space@.len() == 0 && e@ == "No storages found on device"@,
        },
{
    if free_space.len() == 0 {
        return Err(String::from_str("No storages found on device"));
    }
    match first_writable(free_space) {
        Some(i) => Ok(i),
        None => Ok(0),
    }
}

// ---------------------------------------------------------------------------
// Uploads
// ---------------------------------------------------------------------------

/// The sanitized non-empty fields among `parts`, in order.
pub open spec fn sanitized_nonempty(parts: Seq<Seq<char>>) -> Seq<Seq<char>>
    decreases parts.len(),
{
    if parts.len() == 0 {
        Seq::empty()
    } else if parts.last().len() > 0 {
        sanitized_nonempty(parts.drop_last()).push(sanitized(parts.last()))
    } else {
        sanitized_nonempty(parts.drop_last())
    }
}

/// The folders, outermost first, that a `/`-separated base path such as
/// `Music/Podcasts` names on a device: its non-empty components, sanitized.
pub open spec fn folder_names(base_path: Seq<char>) -> Seq<Seq<char>> {
    sanitized_nonempty(split_on(base_path, '/'))
}

/// The folders, outermost first, that a base path such as `Music/Podcasts`
/// names on a device: its non-empty `/`-separated components, each made
/// safe as a folder name.
pub fn folder_components(base_path: &str) -> (r: Vec<String>)
    ensures
        string_views(r@) == folder_names(base_path@),
{
    let cs = chars_of(base_path);
    let mut done: Vec<String> = Vec::new();
    let mut cur: Vec<char> = Vec::new();
    let mut i: usize = 0;
    while i < cs.len()
        invariant
            i <= cs.len(),
            cs@ == base_path@,
            string_views(done@) == sanitized_nonempty(split_on(cs@.take(i as int), '/').drop_last()),
            cur@ == split_on(cs@.take(i as int), '/').last(),
            split_on(cs@.take(i as int), '/').len() >= 1,
        decreases cs.len() - i,
    {
        let c = cs[i];
        let ghost before = split_on(cs@.take(i as int), '/');
        assert(cs@.take(i + 1).drop_last() == cs@.take(i as int));
        if c == '/' {
            if cur.len() > 0 {
                let s = string_of(&cur);
                let name = sanitize_filename(s.as_str());
                let ghost old_views = string_views(done@);
                done.push(name);
                assert(string_views(done@) == old_views.push(name@));
            }
            assert(split_on(cs@.take(i + 1), '/').drop_last() == before);
            assert(before == before.drop_last().push(before.last()));
            cur = Vec::new();
        } else {
            cur.push(c);
            assert(split_on(cs@.take(i + 1), '/').drop_last() == before.drop_last());
        }
        i = i + 1;
    }
    assert(cs@.take(cs.len() as int) == cs@);
    let ghost parts = split_on(cs@, '/');
    assert(parts == parts.drop_last().push(parts.last()));
    if cur.len() > 0 {
        let s = string_of(&cur);
        let name = sanitize_filename(s.as_str());
        let ghost old_views = string_views(done@);
        done.push(name);
        assert(string_views(done@) == old_views.push(name@));
    }
    done
}

/// One item of a folder listing: its object handle, name, and whether it
/// is a folder.
#[derive(Debug, Clone)]
pub struct MtpItemInfo {
    pub handle: u32,
    pub name: String,
    pub is_folder: bool,
}

/// The handle of the first folder named `name` among `items`.
pub fn find_folder(items: &[MtpItemInfo], name: &str) -> (r: Option<u32>)
    ensures
        match r {
            Some(h) => exists|i: int|
                0 <= i < items@.len() && items@[i].is_folder && items@[i].name@ == name@
                    && items@[i].handle == h && forall|j: int|
                    0 <= j < i ==> !(#[trigger] items@[j].is_folder && items@[j].name@ == name@),
            None => forall|i: int|
                0 <= i < items@.len() ==> !(#[trigger] items@[i].is_folder && items@[i].name@
                    == name@),
        },
{
    let target = String::from_str(name);
    let mut i: usize = 0;
    while i < items.len()
        invariant
            i <= items@.len(),
            target@ == name@,
            forall|j: int|
                0 <= j < i ==> !(#[trigger] items@[j].is_folder && items@[j].name@ == name@),
        decreases items@.len() - i,
    {
        if items[i].is_folder && items[i].name == target {
            return Some(items[i].handle);
        }
        i = i + 1;
    }
    None
}

/// The label an upload error is reported under: the device's product name,
/// else its manufacturer, else `MTP device`.
pub fn device_label(product: &Option<String>, manufacturer: &Option<String>) -> (r: String)
    ensures
        r@ == match *product {
            Some(p) => p@,
            None => match *manufacturer {
                Some(m) => m@,
                None => "MTP device"@,
            },
        },
{
    match product {
        Some(p) => p.clone(),
        None => match manufacturer {
            Some(m) => m.clone(),
            None => String::from_str("MTP device"),
        },
    }
}

/// How many uploads succeeded.
pub open spec fn uploads_ok(outcomes: Seq<Result<String, String>>) -> nat
    decreases outcomes.len(),
{
    if outcomes.len() == 0 {
        0
    } else {
        uploads_ok(outcomes.drop_last()) + if outcomes.last() is Ok {
            1nat
        } else {
            0nat
        }
    }
}

/// The errors of the failed uploads, each as `<label>: <error>`, in order.
pub open spec fn upload_errors(labels: Seq<Seq<char>>, outcomes: Seq<Result<String, String>>) -> Seq<Seq<char>>
    decreases outcomes.len(),
{
    if outcomes.len() == 0 {
        Seq::empty()
    } else {
        let front = upload_errors(labels.drop_last(), outcomes.drop_last());
        match outcomes.last() {
            Ok(_) => front,
            Err(e) => front.push(labels.last() + ": "@ + e@),
        }
    }
}

/// The texts joined with `sep` between them.
pub open spec fn join_with(parts: Seq<Seq<char>>, sep: Seq<char>) -> Seq<char>
    decreases parts.len(),
{
    if parts.len() == 0 {
        Seq::empty()
    } else if parts.len() == 1 {
        parts[0]
    } else {
        join_with(parts.drop_last(), sep) + sep + parts.last()
    }
}

/// The result of uploading an episode to every connected device: how many
/// uploads worked, or, when none did, the failures joined with `; `; with
/// no device at all, `No MTP devices found`.
pub open spec fn device_sync_result(labels: Seq<Seq<char>>, outcomes: Seq<Result<String, String>>) -> Result<nat, Seq<char>> {
    if outcomes.len() == 0 {
        Err("No MTP devices found"@)
    } else if uploads_ok(outcomes) > 0 {
        Ok(uploads_ok(outcomes))
    } else {
        Err(join_with(upload_errors(labels, outcomes), "; "@))
    }
}

proof fn lemma_uploads_ok_le(outcomes: Seq<Result<String, String>>)
    ensures
        uploads_ok(outcomes) <= outcomes.len(),
    decreases outcomes.len(),
{
    if outcomes.len() > 0 {
        lemma_uploads_ok_le(outcomes.drop_last());
    }
}

/// Sums up uploading an episode to the devices labelled `labels`, whose
/// uploads ended in `outcomes`: the number that succeeded when any did,
/// else their errors.
pub fn summarize_device_sync(labels: &[String], outcomes: &[Result<String, String>]) -> (r: Result<u32, String>)
    requires
        labels@.len() == outcomes@.len(),
        outcomes@.len() <= u32::MAX,
    ensures
        match r {
            Ok(n) => device_sync_result(string_views(labels@), outcomes@) == Ok::<nat, Seq<char>>(n as nat),
            Err(e) => device_sync_result(string_views(labels@), outcomes@) == Err::<nat, Seq<char>>(e@),
        },
{
    if outcomes.len() == 0 {
        return Err(String::from_str("No MTP devices found"));
    }
    let mut ok: u32 = 0;
    let mut errors = String::new();
    let mut any_err = false;
    let mut i: usize = 0;
    while i < outcomes.len()
        invariant
            i <= outcomes@.len(),
            labels@.len() == outcomes@.len(),
            outcomes@.len() <= u32::MAX,
            ok == uploads_ok(outcomes@.take(i as int)),
            ok <= i,
            any_err == (upload_errors(string_views(labels@).take(i as int), outcomes@.take(i as int)).len() > 0),
            errors@ == join_with(
                upload_errors(string_views(labels@).take(i as int), outcomes@.take(i as int)),
                "; "@,
            ),
        decreases outcomes@.len() - i,
    {
        let ghost lv = string_views(labels@);
        assert(outcomes@.take(i + 1).drop_last() == outcomes@.take(i as int));
        assert(lv.take(i + 1).drop_last() == lv.take(i as int));
        assert(lv.take(i + 1).last() == labels@[i as int]@);
        match &outcomes[i] {
            Ok(_) => {
                ok = ok + 1;
            },
            Err(e) => {
                let ghost before = upload_errors(lv.take(i as int), outcomes@.take(i as int));
                if any_err {
                    errors.append("; ");
                }
                errors.append(labels[i].as_str());
                errors.append(": ");
                errors.append(e.as_str());
                any_err = true;
                proof {
                    let after = before.push(labels@[i as int]@ + ": "@ + e@);
                    assert(after.drop_last() == before);
                    if before.len() == 0 {
                        assert(after.len() == 1);
                        assert(errors@ =~= after[0]);
                    }
                }
            },
        }
        i = i + 1;
    }
    assert(outcomes@.take(outcomes@.len() as int) == outcomes@);
    assert(string_views(labels@).take(outcomes@.len() as int) == string_views(labels@));
    if ok > 0 {
        Ok(ok)
    } else {
        Err(errors)
    }
}

/// The message shown for a device error: a hint when another program holds
/// the device or access is denied, else the error's own text.
pub open spec fn device_error_text(exclusive_access: bool, permission_denied: bool, detail: Seq<char>) -> Seq<char> {
    if exclusive_access {
        "Device is in use by another app (e.g. file manager).\nUnmount it first: eject from your file manager, or run:\n  gio mount -e mtp://...\nThen unplug and reconnect the device."@
    } else if permission_denied {
        "Permission denied. You may need udev rules:\n  sudo apt install mtp-tools\nor add yourself to the 'plugdev' group and reboot."@
    } else {
        detail
    }
}

/// The message shown for a device error: what to do when another program
/// holds the device or when access is denied, else the error's own text.
pub fn device_error_message(exclusive_access: bool, permission_denied: bool, detail: &str) -> (r: String)
    ensures
        r@ == device_error_text(exclusive_access, permission_denied, detail@),
{
    if exclusive_access {
        String::from_str(
            "Device is in use by another app (e.g. file manager).\nUnmount it first: eject from your file manager, or run:\n  gio mount -e mtp://...\nThen unplug and reconnect the device.",
        )
    } else if permission_denied {
        String::from_str(
            "Permission denied. You may need udev rules:\n  sudo apt install mtp-tools\nor add yourself to the 'plugdev' group and reboot.",
        )
    } else {
        String::from_str(detail)
    }
}

// ---------------------------------------------------------------------------
// Folder browser
// ---------------------------------------------------------------------------

/// The names of the folders along a browser path.
pub open spec fn segment_names(path: Seq<(String, u32)>) -> Seq<Seq<char>> {
    path.map_values(|s: (String, u32)| s.0@)
}

/// The folder a browser path ends in: `None` for a storage's root.
pub open spec fn folder_of(path: Seq<(String, u32)>) -> Option<u32> {
    if path.len() == 0 {
        None
    } else {
        Some(path.last().1)
    }
}

/// The message for entering a folder that is not listed.
pub open spec fn not_found_text(name: Seq<char>) -> Seq<char> {
    "folder '"@ + name + "' not found"@
}

/// Where the folder browser stands: the chosen storage, the folders entered
/// from its root (name and handle, outermost first), the listing of the
/// current folder, and the last error (empty when none).
pub struct BrowserState {
    pub selected_storage: usize,
    pub storage_count: usize,
    pub path_segments: Vec<(String, u32)>,
    pub items: Vec<MtpItemInfo>,
    pub error: String,
}

impl BrowserState {
    /// The chosen storage is one of the device's.
    pub open spec fn wf(&self) -> bool {
        self.selected_storage < self.storage_count
    }

    /// A browser at the root of storage `selected` of `storage_count`,
    /// showing `items`.
    pub fn new(storage_count: usize, selected: usize, items: Vec<MtpItemInfo>) -> (r: BrowserState)
        requires
            selected < storage_count,
        ensures
            r.wf(),
            r.storage_count == storage_count,
            r.selected_storage == selected,
            r.path_segments@.len() == 0,
            r.items@ == items@,
            r.error@.len() == 0,
    {
        BrowserState {
            selected_storage: selected,
            storage_count,
            path_segments: Vec::new(),
            items,
            error: String::new(),
        }
    }

    /// The handle of the current folder; `None` at the root.
    pub fn current_handle(&self) -> (r: Option<u32>)
        ensures
            r == folder_of(self.path_segments@),
    {
        let n = self.path_segments.len();
        if n == 0 {
            None
        } else {
            Some(self.path_segments[n - 1].1)
        }
    }

    /// The current folder as a path: the entered folders' names joined with
    /// `/`, empty at the root.
    pub fn current_path(&self) -> (r: String)
        ensures
            r@ == join_with(segment_names(self.path_segments@), "/"@),
    {
        let mut r = String::new();
        let mut i: usize = 0;
        while i < self.path_segments.len()
            invariant
                i <= self.path_segments@.len(),
                r@ == join_with(segment_names(self.path_segments@.take(i as int)), "/"@),
            decreases self.path_segments@.len() - i,
        {
            let ghost before = segment_names(self.path_segments@.take(i as int));
            let ghost after = segment_names(self.path_segments@.take(i + 1));
            assert(after == before.push(self.path_segments@[i as int].0@));
            assert(after.drop_last() == before);
            if i > 0 {
                r.append("/");
            }
            r.append(self.path_segments[i].0.as_str());
            proof {
                if i == 0 {
                    assert(r@ =~= after[0]);
                }
            }
            i = i + 1;
        }
        assert(self.path_segments@.take(self.path_segments@.len() as int) == self.path_segments@);
        r
    }

    /// Chooses storage `index`. Nothing happens for an unknown storage or the
    /// current one; otherwise the browser goes to the new storage's root
    /// with no error, and `true` asks for that root to be listed.
    pub fn select_storage(&mut self, index: usize) -> (r: bool)
        requires
            old(self).wf(),
        ensures
            final(self).wf(),
            r == (index < old(self).storage_count && index != old(self).selected_storage),
            r ==> final(self).selected_storage == index && final(self).path_segments@.len() == 0
                && final(self).error@.len() == 0 && final(self).items == old(self).items
                && final(self).storage_count == old(self).storage_count,
            !r ==> *final(self) == *old(self),
    {
        if index >= self.storage_count || index == self.selected_storage {
            return false;
        }
        self.selected_storage = index;
        self.path_segments = Vec::new();
        self.error = String::new();
        true
    }

    /// Starts a refresh: clears the error and gives the folder to list.
    pub fn begin_refresh(&mut self) -> (r: Option<u32>)
        requires
            old(self).wf(),
        ensures
            final(self).wf(),
            r == folder_of(old(self).path_segments@),
            final(self).error@.len() == 0,
            final(self).path_segments == old(self).path_segments,
            final(self).items == old(self).items,
            final(self).selected_storage == old(self).selected_storage,
            final(self).storage_count == old(self).storage_count,
    {
        self.error = String::new();
        self.current_handle()
    }

    /// Goes back to the storage's root: clears the path and the error; the
    /// root is then listed.
    pub fn go_root(&mut self)
        requires
            old(self).wf(),
        ensures
            final(self).wf(),
            final(self).path_segments@.len() == 0,
            final(self).error@.len() == 0,
            final(self).items == old(self).items,
            final(self).selected_storage == old(self).selected_storage,
            final(self).storage_count == old(self).storage_count,
    {
        self.path_segments = Vec::new();
        self.error = String::new();
    }

    /// Takes in the listing of the current folder: on success it replaces
    /// the items, on failure the error is recorded and the items stay.
    pub fn listing_done(&mut self, result: Result<Vec<MtpItemInfo>, String>)
        requires
            old(self).wf(),
        ensures
            final(self).wf(),
            final(self).path_segments == old(self).path_segments,
            final(self).selected_storage == old(self).selected_storage,
            final(self).storage_count == old(self).storage_count,
            match result {
                Ok(objs) => final(self).items@ == objs@ && final(self).error == old(self).error,
                Err(e) => final(self).items == old(self).items && final(self).error@ == e@,
            },
    {
        match result {
            Ok(objs) => {
                self.items = objs;
            },
            Err(e) => {
                self.error = e;
            },
        }
    }

    /// Starts entering the listed folder `name`: gives its handle to list,
    /// clearing the error, or records that no such folder is listed.
    pub fn begin_enter(&mut self, name: &str) -> (r: Option<u32>)
        requires
            old(self).wf(),
        ensures
            final(self).wf(),
            final(self).path_segments == old(self).path_segments,
            final(self).items == old(self).items,
            final(self).selected_storage == old(self).selected_storage,
            final(self).storage_count == old(self).storage_count,
            match r {
                Some(h) => final(self).error@.len() == 0 && exists|i: int|
                    0 <= i < old(self).items@.len() && old(self).items@[i].is_folder
                        && old(self).items@[i].name@ == name@ && old(self).items@[i].handle == h
                        && forall|j: int|
                        0 <= j < i ==> !(#[trigger] old(self).items@[j].is_folder
                            && old(self).items@[j].name@ == name@),
                None => final(self).error@ == not_found_text(name@) && forall|i: int|
                    0 <= i < old(self).items@.len() ==> !(#[trigger] old(self).items@[i].is_folder
                        && old(self).items@[i].name@ == name@),
            },
    {
        match find_folder(self.items.as_slice(), name) {
            Some(h) => {
                self.error = String::new();
                Some(h)
            },
            None => {
                let mut msg = String::from_str("folder '");
                msg.append(name);
                msg.append("' not found");
                self.error = msg;
                None
            },
        }
    }

    /// Takes in the listing of the entered folder `name` (handle `handle`):
    /// on success the items are replaced and the folder joins the path; on
    /// failure the error is recorded and nothing else changes.
    pub fn enter_done(&mut self, name: &str, handle: u32, result: Result<Vec<MtpItemInfo>, String>)
        requires
            old(self).wf(),
        ensures
            final(self).wf(),
            final(self).selected_storage == old(self).selected_storage,
            final(self).storage_count == old(self).storage_count,
            match result {
                Ok(objs) => final(self).items@ == objs@ && final(self).error == old(self).error
                    && final(self).path_segments@.len() == old(self).path_segments@.len() + 1
                    && final(self).path_segments@.drop_last() == old(self).path_segments@
                    && final(self).path_segments@.last().0@ == name@
                    && final(self).path_segments@.last().1 == handle,
                Err(e) => final(self).items == old(self).items && final(self).error@ == e@
                    && final(self).path_segments == old(self).path_segments,
            },
    {
        match result {
            Ok(objs) => {
                self.items = objs;
                self.path_segments.push((String::from_str(name), handle));
                assert(self.path_segments@.drop_last() == old(self).path_segments@);
            },
            Err(e) => {
                self.error = e;
            },
        }
    }

    /// Goes up one folder: at the root nothing happens (`None`); otherwise
    /// the last folder leaves the path, the error is cleared, and the folder
    /// now current is given to list.
    pub fn begin_up(&mut self) -> (r: Option<Option<u32>>)
        requires
            old(self).wf(),
        ensures
            final(self).wf(),
            final(self).items == old(self).items,
            final(self).selected_storage == old(self).selected_storage,
            final(self).storage_count == old(self).storage_count,
            old(self).path_segments@.len() == 0 ==> r is None && *final(self) == *old(self),
            old(self).path_segments@.len() > 0 ==> final(self).path_segments@
                == old(self).path_segments@.drop_last() && final(self).error@.len() == 0 && r
                == Some(folder_of(final(self).path_segments@)),
    {
        if self.path_segments.len() == 0 {
            return None;
        }
        self.path_segments.pop();
        self.error = String::new();
        Some(self.current_handle())
    }
}

/// Going up after entering a folder returns to the folder it was entered
/// from: the path is as before and that folder is the one listed.
pub proof fn lemma_up_undoes_enter(path: Seq<(String, u32)>, entered: (String, u32))
    ensures
        path.push(entered).drop_last() == path,
        folder_of(path.push(entered).drop_last()) == folder_of(path),
        folder_of(path.push(entered)) == Some(entered.1),
{
    assert(path.push(entered).drop_last() =~= path);
}

} // verus!
