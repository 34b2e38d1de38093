//! Importing an extracted skin folder into the skins folder.
//!
//! The import reads and writes files, so it runs in steps: this module
//! decides each step from what was read, and the caller performs it.
//! 1. `locate_import_root`: is the chosen folder a skin, and where are its bitmaps?
//! 2. `import_base_id`, then `unique_destination` step by step: the new
//!    skin's id and folder in the skins folder.
//! 3. `import_copies`: which files to copy, and to which names.
//! 4. `check_imported_skin`: did the copy give a usable skin?
use vstd::prelude::*;
use crate::naming::{fallback_slug, is_lower_slug, lemma_slug_is_plain, slug, slugify};
use crate::paths::{file_name, is_plain_name, join, path_file_name, path_join};
use crate::skins::{
    is_named_file, named_file_count, skin_root, skin_root_of, upper_file_name,
    uppercase_file_name, FolderListing, FolderScan, FolderEntry,
};

verus! {

pub open spec fn not_a_folder_message() -> Seq<char> {
    "Please choose an extracted Winamp skin folder"@
}

pub open spec fn not_a_skin_message() -> Seq<char> {
    "That folder does not look like a Winamp skin: MAIN.BMP was not found"@
}

pub open spec fn missing_bitmaps_message() -> Seq<char> {
    "That folder does not include the core Winamp skin bitmaps"@
}

/// Where the chosen folder's skin bitmaps are (see `skin_root`); an error
/// if the chosen path is not a folder or holds no `MAIN.BMP`.
pub fn locate_import_root(source_is_dir: bool, scan: &FolderScan) -> (r: Result<&FolderListing, String>)
    ensures
        !source_is_dir ==> (r matches Err(msg) && msg@ == not_a_folder_message()),
        source_is_dir && skin_root_of(*scan) is None ==> (r matches Err(msg) && msg@
            == not_a_skin_message()),
        source_is_dir && skin_root_of(*scan) is Some ==> (r matches Ok(root) && skin_root_of(
            *scan,
        ) == Some(*root)),
{
    if !source_is_dir {
        return Err(String::from_str("Please choose an extracted Winamp skin folder"));
    }
    match skin_root(scan) {
        Some(root) => Ok(root),
        None => Err(
            String::from_str("That folder does not look like a Winamp skin: MAIN.BMP was not found"),
        ),
    }
}

/// The name an imported skin is based on: its folder's name, or `skin`.
pub open spec fn import_base_name(root_path: Seq<char>) -> Seq<char> {
    match path_file_name(root_path) {
        Some(n) => n,
        None => fallback_slug(),
    }
}

/// The id an imported skin's folder is named after: the slug of the name of
/// the folder that holds its bitmaps (`skin` if that folder has no name).
/// The free folder for it is then found with `unique_destination`.
pub fn import_base_id(root: &FolderListing) -> (r: String)
    ensures
        r@ == slug(import_base_name(root.path@)),
        is_lower_slug(r@),
        is_plain_name(r@),
{
    let base_name = match file_name(root.path.as_str()) {
        Some(name) => name,
        None => String::from_str("skin"),
    };
    proof {
        reveal_strlit("skin");
        assert("skin"@ =~= fallback_slug());
    }
    let base_id = slugify(base_name.as_str());
    proof {
        lemma_slug_is_plain(base_id@);
    }
    base_id
}

/// One file to copy.
#[derive(Debug, Clone, PartialEq, Eq)]
pub struct FileCopy {
    pub from: String,
    pub to: String,
}

pub struct FileCopyView {
    pub from: Seq<char>,
    pub to: Seq<char>,
}

impl View for FileCopy {
    type V = FileCopyView;

    open spec fn view(&self) -> FileCopyView {
        FileCopyView { from: self.from@, to: self.to@ }
    }
}

pub open spec fn copy_views(s: Seq<FileCopy>) -> Seq<FileCopyView> {
    s.map_values(|c: FileCopy| c@)
}

/// The copies an import makes, in listing order: every entry that is a file
/// with a file name goes to its upper-cased name in `destination`.
pub open spec fn copies_of(entries: Seq<FolderEntry>, destination: Seq<char>) -> Seq<FileCopyView>
    decreases entries.len(),
{
    if entries.len() == 0 {
        Seq::empty()
    } else {
        let prev = copies_of(entries.drop_last(), destination);
        let e = entries.last();
        if e.is_file && upper_file_name(e.path@) is Some {
            prev.push(
                FileCopyView {
                    from: e.path@,
                    to: path_join(destination, upper_file_name(e.path@).unwrap()),
                },
            )
        } else {
            prev
        }
    }
}

/// The copy made of a file entry.
pub open spec fn copy_of(e: FolderEntry, destination: Seq<char>) -> FileCopyView {
    FileCopyView { from: e.path@, to: path_join(destination, upper_file_name(e.path@).unwrap()) }
}

/// An import copies every file of the folder, whatever its name, and
/// nothing else: each file with a file name is copied once, from its path
/// to its upper-cased name in the destination, and every copy is of such a file.
pub proof fn lemma_copies_are_the_files(entries: Seq<FolderEntry>, destination: Seq<char>)
    ensures
        copies_of(entries, destination).len() == named_file_count(entries),
        forall|i: int|
            0 <= i < entries.len() && is_named_file(#[trigger] entries[i]) ==> copies_of(
                entries,
                destination,
            ).contains(copy_of(entries[i], destination)),
        forall|k: int|
            #![trigger copies_of(entries, destination)[k]]
            0 <= k < copies_of(entries, destination).len() ==> exists|i: int|
                0 <= i < entries.len() && is_named_file(#[trigger] entries[i]) && copies_of(
                    entries,
                    destination,
                )[k] == copy_of(entries[i], destination),
    decreases entries.len(),
{
    if entries.len() > 0 {
        let init = entries.drop_last();
        lemma_copies_are_the_files(init, destination);
        let prev = copies_of(init, destination);
        let r = copies_of(entries, destination);
        assert forall|i: int|
            0 <= i < entries.len() && is_named_file(#[trigger] entries[i]) implies r.contains(
                copy_of(entries[i], destination),
            ) by {
            if i < entries.len() - 1 {
                assert(init[i] == entries[i]);
                assert(prev.contains(copy_of(init[i], destination)));
                let k = choose|k: int| 0 <= k < prev.len() && prev[k] == copy_of(init[i], destination);
                assert(r[k] == prev[k]);
            } else {
                assert(r[r.len() - 1] == copy_of(entries[i], destination));
            }
        }
        assert forall|k: int|
            #![trigger copies_of(entries, destination)[k]]
            0 <= k < copies_of(entries, destination).len() implies exists|i: int|
                0 <= i < entries.len() && is_named_file(#[trigger] entries[i]) && copies_of(
                    entries,
                    destination,
                )[k] == copy_of(entries[i], destination) by {
            if k < prev.len() {
                assert(r[k] == prev[k]);
                let i = choose|i: int|
                    0 <= i < init.len() && is_named_file(#[trigger] init[i]) && prev[k] == copy_of(
                        init[i],
                        destination,
                    );
                assert(entries[i] == init[i]);
            } else {
                let last = entries.len() - 1;
                assert(is_named_file(entries[last]));
                assert(!is_named_file(entries.last()) ==> r == prev);
                assert(r[k] == copy_of(entries[last], destination));
            }
        }
    } else {
        assert(copies_of(entries, destination).len() == 0);
    }
}

/// The files of the skin's folder to copy into `destination`, each under
/// its upper-cased file name.
pub fn import_copies(root: &FolderListing, destination: &str) -> (r: Vec<FileCopy>)
    ensures
        copy_views(r@) == copies_of(root.entries@, destination@),
        r@.len() == named_file_count(root.entries@),
        forall|i: int|
            0 <= i < root.entries@.len() && is_named_file(#[trigger] root.entries@[i])
                ==> copy_views(r@).contains(copy_of(root.entries@[i], destination@)),
{
    proof {
        lemma_copies_are_the_files(root.entries@, destination@);
    }
    let mut copies: Vec<FileCopy> = Vec::new();
    let ghost entries = root.entries@;
    assert(entries.take(0) =~= Seq::<FolderEntry>::empty());
    for i in 0..root.entries.len()
        invariant
            entries == root.entries@,
            copy_views(copies@) == copies_of(entries.take(i as int), destination@),
    {
        let entry = &root.entries[i];
        assert(entries.take(i + 1).drop_last() =~= entries.take(i as int));
        assert(entries.take(i + 1).last() == *entry);
        if entry.is_file {
            match uppercase_file_name(entry.path.as_str()) {
                Some(name) => {
                    let to = join(destination, name.as_str());
                    let from = entry.path.clone();
                    copies.push(FileCopy { from, to });
                    assert(copy_views(copies@) =~= copies_of(entries.take(i + 1), destination@));
                },
                None => {},
            }
        }
    }
    assert(entries.take(root.entries.len() as int) =~= entries);
    copies
}

/// An import succeeded if at least one file was copied and the new folder
/// holds `MAIN.BMP`; else the error that says the bitmaps are missing.
pub fn check_imported_skin(copied_files: usize, destination_has_main: bool) -> (r: Result<(), String>)
    ensures
        r is Ok <==> copied_files > 0 && destination_has_main,
        r matches Err(msg) ==> msg@ == missing_bitmaps_message(),
{
    if copied_files == 0 || !destination_has_main {
        Err(String::from_str("That folder does not include the core Winamp skin bitmaps"))
    } else {
        Ok(())
    }
}

} // verus!
