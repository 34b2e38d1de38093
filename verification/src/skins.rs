//! Skins: the bundled skin, and the skins found in scanned folders.
//!
//! A folder is handed to this module as a `FolderScan`: its listing and the
//! listings of its subfolders, as read from disk.  Everything decided from
//! those listings (where a skin's bitmaps are, its id, display name and
//! assets, and the order of a listing of skins) is decided here.
use vstd::prelude::*;
use crate::naming::{display_name, display_name_from_id};
use crate::paths::{file_name, path_file_name};
use crate::text::{ascii_upper_seq, chars_of, lowercase_str, str_lowercase, to_ascii_uppercase, string_of};

verus! {

/// The id of the skin that ships with the player.
pub const DEFAULT_SKIN_ID: &'static str = "base-2.91";

/// The display name of the skin that ships with the player.
pub const DEFAULT_SKIN_NAME: &'static str = "Winamp 2.91";

/// The bitmap every skin folder holds.
pub const MAIN_ASSET: &'static str = "MAIN.BMP";

/// One file of a skin: its upper-cased file name, and where it lies on disk
/// (none for the bundled skin, whose files ship with the front end).
#[derive(Debug, Clone, PartialEq, Eq)]
pub struct SkinAsset {
    pub name: String,
    pub path: Option<String>,
}

/// A skin: its id (the folder name), display name, whether it is the
/// bundled skin, and its files.
#[derive(Debug, Clone, PartialEq, Eq)]
pub struct SkinInfo {
    pub id: String,
    pub name: String,
    pub bundled: bool,
    pub assets: Vec<SkinAsset>,
}

/// An entry of a folder listing.
#[derive(Debug, Clone, PartialEq, Eq)]
pub struct FolderEntry {
    pub path: String,
    pub is_file: bool,
    pub is_dir: bool,
}

/// A folder and its entries, in the order the file system listed them
/// (no entries if it could not be read).
#[derive(Debug, Clone, PartialEq, Eq)]
pub struct FolderListing {
    pub path: String,
    pub entries: Vec<FolderEntry>,
}

/// A folder, and the listings of those of its entries that are folders,
/// in the order of its listing.
#[derive(Debug, Clone, PartialEq, Eq)]
pub struct FolderScan {
    pub folder: FolderListing,
    pub subfolders: Vec<FolderListing>,
}

pub struct AssetView {
    pub name: Seq<char>,
    pub path: Option<Seq<char>>,
}

pub struct SkinInfoView {
    pub id: Seq<char>,
    pub name: Seq<char>,
    pub bundled: bool,
    pub assets: Seq<AssetView>,
}

pub open spec fn opt_view(o: Option<String>) -> Option<Seq<char>> {
    match o {
        Some(s) => Some(s@),
        None => None,
    }
}

impl View for SkinAsset {
    type V = AssetView;

    open spec fn view(&self) -> AssetView {
        AssetView { name: self.name@, path: opt_view(self.path) }
    }
}

pub open spec fn asset_views(s: Seq<SkinAsset>) -> Seq<AssetView> {
    s.map_values(|a: SkinAsset| a@)
}

impl View for SkinInfo {
    type V = SkinInfoView;

    open spec fn view(&self) -> SkinInfoView {
        SkinInfoView {
            id: self.id@,
            name: self.name@,
            bundled: self.bundled,
            assets: asset_views(self.assets@),
        }
    }
}

pub open spec fn info_views(s: Seq<SkinInfo>) -> Seq<SkinInfoView> {
    s.map_values(|i: SkinInfo| i@)
}

// ---------------------------------------------------------------------------
// The bundled skin.
// ---------------------------------------------------------------------------
/// The files of the bundled skin.
pub open spec fn bundled_asset_names() -> Seq<Seq<char>> {
    seq![
        "BALANCE.BMP"@,
        "CBUTTONS.BMP"@,
        "CLOSE.CUR"@,
        "EQSLID.CUR"@,
        "MAIN.BMP"@,
        "MAINMENU.CUR"@,
        "MONOSTER.BMP"@,
        "NUMBERS.BMP"@,
        "PLAYPAUS.BMP"@,
        "PLEDIT.BMP"@,
        "POSBAR.BMP"@,
        "SHUFREP.BMP"@,
        "TEXT.BMP"@,
        "TITLEBAR.BMP"@,
        "TITLEBAR.CUR"@,
        "VOLBAL.CUR"@,
        "VOLUME.BMP"@,
    ]
}

/// The bundled skin's files are seventeen distinct names: the bitmaps and
/// cursors of the Winamp 2.91 skin.
pub proof fn lemma_bundled_asset_names()
    ensures
        bundled_asset_names().len() == 17,
        bundled_asset_names().no_duplicates(),
        forall|n: Seq<char>| #[trigger] bundled_asset_names().contains(n) <==> (n == "BALANCE.BMP"@
            || n == "CBUTTONS.BMP"@ || n == "CLOSE.CUR"@ || n == "EQSLID.CUR"@ || n == "MAIN.BMP"@
            || n == "MAINMENU.CUR"@ || n == "MONOSTER.BMP"@ || n == "NUMBERS.BMP"@
            || n == "PLAYPAUS.BMP"@ || n == "PLEDIT.BMP"@ || n == "POSBAR.BMP"@
            || n == "SHUFREP.BMP"@ || n == "TEXT.BMP"@ || n == "TITLEBAR.BMP"@
            || n == "TITLEBAR.CUR"@ || n == "VOLBAL.CUR"@ || n == "VOLUME.BMP"@),
{
    let names = bundled_asset_names();
        reveal_strlit("BALANCE.BMP");
        reveal_strlit("CBUTTONS.BMP");
        reveal_strlit("CLOSE.CUR");
        reveal_strlit("EQSLID.CUR");
        reveal_strlit("MAIN.BMP");
        reveal_strlit("MAINMENU.CUR");
        reveal_strlit("MONOSTER.BMP");
        reveal_strlit("NUMBERS.BMP");
        reveal_strlit("PLAYPAUS.BMP");
        reveal_strlit("PLEDIT.BMP");
        reveal_strlit("POSBAR.BMP");
        reveal_strlit("SHUFREP.BMP");
        reveal_strlit("TEXT.BMP");
        reveal_strlit("TITLEBAR.BMP");
        reveal_strlit("TITLEBAR.CUR");
        reveal_strlit("VOLBAL.CUR");
        reveal_strlit("VOLUME.BMP");
    assert(names[0] == "BALANCE.BMP"@);
    assert(names[1] == "CBUTTONS.BMP"@);
    assert(names[2] == "CLOSE.CUR"@);
    assert(names[3] == "EQSLID.CUR"@);
    assert(names[4] == "MAIN.BMP"@);
    assert(names[5] == "MAINMENU.CUR"@);
    assert(names[6] == "MONOSTER.BMP"@);
    assert(names[7] == "NUMBERS.BMP"@);
    assert(names[8] == "PLAYPAUS.BMP"@);
    assert(names[9] == "PLEDIT.BMP"@);
    assert(names[10] == "POSBAR.BMP"@);
    assert(names[11] == "SHUFREP.BMP"@);
    assert(names[12] == "TEXT.BMP"@);
    assert(names[13] == "TITLEBAR.BMP"@);
    assert(names[14] == "TITLEBAR.CUR"@);
    assert(names[15] == "VOLBAL.CUR"@);
    assert(names[16] == "VOLUME.BMP"@);
    assert(names[0].len() != names[1].len());
    assert(names[0].len() != names[2].len());
    assert(names[0].len() != names[3].len());
    assert(names[0].len() != names[4].len());
    assert(names[0].len() != names[5].len());
    assert(names[0].len() != names[6].len());
    assert(names[0][0] != names[7][0]);
    assert(names[0].len() != names[8].len());
    assert(names[0].len() != names[9].len());
    assert(names[0].len() != names[10].len());
    assert(names[0][0] != names[11][0]);
    assert(names[0].len() != names[12].len());
    assert(names[0].len() != names[13].len());
    assert(names[0].len() != names[14].len());
    assert(names[0].len() != names[15].len());
    assert(names[0].len() != names[16].len());
    assert(names[1].len() != names[2].len());
    assert(names[1].len() != names[3].len());
    assert(names[1].len() != names[4].len());
    assert(names[1][0] != names[5][0]);
    assert(names[1][0] != names[6][0]);
    assert(names[1].len() != names[7].len());
    assert(names[1][0] != names[8][0]);
    assert(names[1].len() != names[9].len());
    assert(names[1].len() != names[10].len());
    assert(names[1].len() != names[11].len());
    assert(names[1].len() != names[12].len());
    assert(names[1][0] != names[13][0]);
    assert(names[1][0] != names[14][0]);
    assert(names[1].len() != names[15].len());
    assert(names[1].len() != names[16].len());
    assert(names[2].len() != names[3].len());
    assert(names[2].len() != names[4].len());
    assert(names[2].len() != names[5].len());
    assert(names[2].len() != names[6].len());
    assert(names[2].len() != names[7].len());
    assert(names[2].len() != names[8].len());
    assert(names[2].len() != names[9].len());
    assert(names[2].len() != names[10].len());
    assert(names[2].len() != names[11].len());
    assert(names[2].len() != names[12].len());
    assert(names[2].len() != names[13].len());
    assert(names[2].len() != names[14].len());
    assert(names[2].len() != names[15].len());
    assert(names[2].len() != names[16].len());
    assert(names[3].len() != names[4].len());
    assert(names[3].len() != names[5].len());
    assert(names[3].len() != names[6].len());
    assert(names[3].len() != names[7].len());
    assert(names[3].len() != names[8].len());
    assert(names[3][0] != names[9][0]);
    assert(names[3][0] != names[10][0]);
    assert(names[3].len() != names[11].len());
    assert(names[3].len() != names[12].len());
    assert(names[3].len() != names[13].len());
    assert(names[3].len() != names[14].len());
    assert(names[3][0] != names[15][0]);
    assert(names[3][0] != names[16][0]);
    assert(names[4].len() != names[5].len());
    assert(names[4].len() != names[6].len());
    assert(names[4].len() != names[7].len());
    assert(names[4].len() != names[8].len());
    assert(names[4].len() != names[9].len());
    assert(names[4].len() != names[10].len());
    assert(names[4].len() != names[11].len());
    assert(names[4][0] != names[12][0]);
    assert(names[4].len() != names[13].len());
    assert(names[4].len() != names[14].len());
    assert(names[4].len() != names[15].len());
    assert(names[4].len() != names[16].len());
    assert(names[5][1] != names[6][1]);
    assert(names[5].len() != names[7].len());
    assert(names[5][0] != names[8][0]);
    assert(names[5].len() != names[9].len());
    assert(names[5].len() != names[10].len());
    assert(names[5].len() != names[11].len());
    assert(names[5].len() != names[12].len());
    assert(names[5][0] != names[13][0]);
    assert(names[5][0] != names[14][0]);
    assert(names[5].len() != names[15].len());
    assert(names[5].len() != names[16].len());
    assert(names[6].len() != names[7].len());
    assert(names[6][0] != names[8][0]);
    assert(names[6].len() != names[9].len());
    assert(names[6].len() != names[10].len());
    assert(names[6].len() != names[11].len());
    assert(names[6].len() != names[12].len());
    assert(names[6][0] != names[13][0]);
    assert(names[6][0] != names[14][0]);
    assert(names[6].len() != names[15].len());
    assert(names[6].len() != names[16].len());
    assert(names[7].len() != names[8].len());
    assert(names[7].len() != names[9].len());
    assert(names[7].len() != names[10].len());
    assert(names[7][0] != names[11][0]);
    assert(names[7].len() != names[12].len());
    assert(names[7].len() != names[13].len());
    assert(names[7].len() != names[14].len());
    assert(names[7].len() != names[15].len());
    assert(names[7].len() != names[16].len());
    assert(names[8].len() != names[9].len());
    assert(names[8].len() != names[10].len());
    assert(names[8].len() != names[11].len());
    assert(names[8].len() != names[12].len());
    assert(names[8][0] != names[13][0]);
    assert(names[8][0] != names[14][0]);
    assert(names[8].len() != names[15].len());
    assert(names[8].len() != names[16].len());
    assert(names[9][1] != names[10][1]);
    assert(names[9].len() != names[11].len());
    assert(names[9].len() != names[12].len());
    assert(names[9].len() != names[13].len());
    assert(names[9].len() != names[14].len());
    assert(names[9][0] != names[15][0]);
    assert(names[9][0] != names[16][0]);
    assert(names[10].len() != names[11].len());
    assert(names[10].len() != names[12].len());
    assert(names[10].len() != names[13].len());
    assert(names[10].len() != names[14].len());
    assert(names[10][0] != names[15][0]);
    assert(names[10][0] != names[16][0]);
    assert(names[11].len() != names[12].len());
    assert(names[11].len() != names[13].len());
    assert(names[11].len() != names[14].len());
    assert(names[11].len() != names[15].len());
    assert(names[11].len() != names[16].len());
    assert(names[12].len() != names[13].len());
    assert(names[12].len() != names[14].len());
    assert(names[12].len() != names[15].len());
    assert(names[12].len() != names[16].len());
    assert(names[13][9] != names[14][9]);
    assert(names[13].len() != names[15].len());
    assert(names[13].len() != names[16].len());
    assert(names[14].len() != names[15].len());
    assert(names[14].len() != names[16].len());
    assert(names[15][3] != names[16][3]);
    assert forall|i: int, j: int| 0 <= i < names.len() && 0 <= j < names.len() && i != j implies
        names[i] != names[j] by {
        if i > j {
            assert(names[j] != names[i]);
        }
    }
    assert forall|n: Seq<char>| #[trigger] names.contains(n) implies (n == "BALANCE.BMP"@
        || n == "CBUTTONS.BMP"@ || n == "CLOSE.CUR"@ || n == "EQSLID.CUR"@ || n == "MAIN.BMP"@
        || n == "MAINMENU.CUR"@ || n == "MONOSTER.BMP"@ || n == "NUMBERS.BMP"@
        || n == "PLAYPAUS.BMP"@ || n == "PLEDIT.BMP"@ || n == "POSBAR.BMP"@
        || n == "SHUFREP.BMP"@ || n == "TEXT.BMP"@ || n == "TITLEBAR.BMP"@
        || n == "TITLEBAR.CUR"@ || n == "VOLBAL.CUR"@ || n == "VOLUME.BMP"@) by {
        let k = choose|k: int| 0 <= k < names.len() && names[k] == n;
    }
    assert(names[0] == "BALANCE.BMP"@);
    assert(names[1] == "CBUTTONS.BMP"@);
    assert(names[2] == "CLOSE.CUR"@);
    assert(names[3] == "EQSLID.CUR"@);
    assert(names[4] == "MAIN.BMP"@);
    assert(names[5] == "MAINMENU.CUR"@);
    assert(names[6] == "MONOSTER.BMP"@);
    assert(names[7] == "NUMBERS.BMP"@);
    assert(names[8] == "PLAYPAUS.BMP"@);
    assert(names[9] == "PLEDIT.BMP"@);
    assert(names[10] == "POSBAR.BMP"@);
    assert(names[11] == "SHUFREP.BMP"@);
    assert(names[12] == "TEXT.BMP"@);
    assert(names[13] == "TITLEBAR.BMP"@);
    assert(names[14] == "TITLEBAR.CUR"@);
    assert(names[15] == "VOLBAL.CUR"@);
    assert(names[16] == "VOLUME.BMP"@);
}

pub open spec fn bundled_skin_view() -> SkinInfoView {
    SkinInfoView {
        id: DEFAULT_SKIN_ID@,
        name: DEFAULT_SKIN_NAME@,
        bundled: true,
        assets: bundled_asset_names().map_values(|n: Seq<char>| AssetView { name: n, path: None }),
    }
}

fn bundled_skin_assets() -> (r: Vec<&'static str>)
    ensures
        r@.map_values(|s: &str| s@) == bundled_asset_names(),
{
    let r = vec![
        "BALANCE.BMP",
        "CBUTTONS.BMP",
        "CLOSE.CUR",
        "EQSLID.CUR",
        "MAIN.BMP",
        "MAINMENU.CUR",
        "MONOSTER.BMP",
        "NUMBERS.BMP",
        "PLAYPAUS.BMP",
        "PLEDIT.BMP",
        "POSBAR.BMP",
        "SHUFREP.BMP",
        "TEXT.BMP",
        "TITLEBAR.BMP",
        "TITLEBAR.CUR",
        "VOLBAL.CUR",
        "VOLUME.BMP",
    ];
    assert(r@.map_values(|s: &str| s@) =~= bundled_asset_names());
    r
}

/// The skin that ships with the player: id `base-2.91`, name
/// `Winamp 2.91`, and its seventeen files, none of them on disk.
pub fn bundled_skin() -> (r: SkinInfo)
    ensures
        r@ == bundled_skin_view(),
{
    let names = bundled_skin_assets();
    let ghost target = bundled_asset_names().map_values(
        |n: Seq<char>| AssetView { name: n, path: None },
    );
    let mut assets: Vec<SkinAsset> = Vec::new();
    for i in 0..names.len()
        invariant
            names@.map_values(|s: &str| s@) == bundled_asset_names(),
            target == bundled_asset_names().map_values(
                |n: Seq<char>| AssetView { name: n, path: None },
            ),
            asset_views(assets@) == target.take(i as int),
            assets.len() == i,
    {
        let ghost prev = assets@;
        let name = String::from_str(names[i]);
        assets.push(SkinAsset { name, path: None });
        assert(names@.map_values(|s: &str| s@)[i as int] == names@[i as int]@);
        assert(assets@ == prev.push(assets@[i as int]));
        assert(asset_views(assets@) =~= asset_views(prev).push(assets@[i as int]@));
        assert(assets@[i as int]@ == target[i as int]);
        assert(target.take(i + 1) =~= target.take(i as int).push(target[i as int]));
    }
    assert(target.take(names.len() as int) =~= target);
    SkinInfo {
        id: String::from_str(DEFAULT_SKIN_ID),
        name: String::from_str(DEFAULT_SKIN_NAME),
        bundled: true,
        assets,
    }
}

// ---------------------------------------------------------------------------
// File names and assets of a folder.
// ---------------------------------------------------------------------------
/// The ASCII-uppercased final component of `path`, if it has one.
pub open spec fn upper_file_name(path: Seq<char>) -> Option<Seq<char>> {
    match path_file_name(path) {
        Some(n) => Some(ascii_upper_seq(n)),
        None => None,
    }
}

/// The final component of `path`, ASCII-uppercased; none if the path has
/// no final component.
pub fn uppercase_file_name(path: &str) -> (r: Option<String>)
    ensures
        opt_view(r) == upper_file_name(path@),
{
    match file_name(path) {
        Some(name) => {
            let chars = chars_of(name.as_str());
            let upper = to_ascii_uppercase(&chars);
            Some(string_of(&upper))
        },
        None => None,
    }
}

/// The entry is a file named `asset` (compared after uppercasing).
pub open spec fn entry_is_asset(e: FolderEntry, asset: Seq<char>) -> bool {
    e.is_file && upper_file_name(e.path@) == Some(asset)
}

pub open spec fn listing_has_asset(entries: Seq<FolderEntry>, asset: Seq<char>) -> bool {
    exists|i: int| 0 <= i < entries.len() && entry_is_asset(#[trigger] entries[i], asset)
}

/// Whether the folder holds a file whose upper-cased name is `asset`.
pub fn contains_asset(listing: &FolderListing, asset: &str) -> (r: bool)
    ensures
        r == listing_has_asset(listing.entries@, asset@),
{
    let wanted = String::from_str(asset);
    for i in 0..listing.entries.len()
        invariant
            wanted@ == asset@,
            forall|k: int| 0 <= k < i ==> !entry_is_asset(#[trigger] listing.entries@[k], asset@),
    {
        let entry = &listing.entries[i];
        if entry.is_file {
            match uppercase_file_name(entry.path.as_str()) {
                Some(name) => {
                    if name == wanted {
                        assert(entry_is_asset(listing.entries@[i as int], asset@));
                        return true;
                    }
                },
                None => {},
            }
        }
    }
    false
}

/// The files of a folder as skin assets, in listing order: every entry that
/// is a file and has a file name, named by its upper-cased file name.
pub open spec fn imported_assets(entries: Seq<FolderEntry>) -> Seq<AssetView>
    decreases entries.len(),
{
    if entries.len() == 0 {
        Seq::empty()
    } else {
        let prev = imported_assets(entries.drop_last());
        let e = entries.last();
        if e.is_file && upper_file_name(e.path@) is Some {
            prev.push(AssetView { name: upper_file_name(e.path@).unwrap(), path: Some(e.path@) })
        } else {
            prev
        }
    }
}

/// The entry is a file with a file name.
pub open spec fn is_named_file(e: FolderEntry) -> bool {
    e.is_file && upper_file_name(e.path@) is Some
}

/// The number of entries that are files with a file name.
pub open spec fn named_file_count(entries: Seq<FolderEntry>) -> nat
    decreases entries.len(),
{
    if entries.len() == 0 {
        0
    } else {
        named_file_count(entries.drop_last()) + if is_named_file(entries.last()) {
            1nat
        } else {
            0nat
        }
    }
}

/// The asset made of a file entry.
pub open spec fn asset_of(e: FolderEntry) -> AssetView {
    AssetView { name: upper_file_name(e.path@).unwrap(), path: Some(e.path@) }
}

/// A folder's assets are its files, all of them and nothing else: every
/// file with a file name gives the asset of its upper-cased name and path,
/// every asset comes from such a file, one asset per file.
pub proof fn lemma_imported_assets_are_the_files(entries: Seq<FolderEntry>)
    ensures
        imported_assets(entries).len() == named_file_count(entries),
        forall|i: int|
            0 <= i < entries.len() && is_named_file(#[trigger] entries[i]) ==> imported_assets(
                entries,
            ).contains(asset_of(entries[i])),
        forall|k: int|
            #![trigger imported_assets(entries)[k]]
            0 <= k < imported_assets(entries).len() ==> exists|i: int|
                0 <= i < entries.len() && is_named_file(#[trigger] entries[i])
                    && imported_assets(entries)[k] == asset_of(entries[i]),
    decreases entries.len(),
{
    if entries.len() > 0 {
        let init = entries.drop_last();
        lemma_imported_assets_are_the_files(init);
        let prev = imported_assets(init);
        let r = imported_assets(entries);
        assert forall|i: int|
            0 <= i < entries.len() && is_named_file(#[trigger] entries[i]) implies r.contains(
                asset_of(entries[i]),
            ) by {
            if i < entries.len() - 1 {
                assert(init[i] == entries[i]);
                assert(prev.contains(asset_of(init[i])));
                let k = choose|k: int| 0 <= k < prev.len() && prev[k] == asset_of(init[i]);
                assert(r[k] == prev[k]);
            } else {
                assert(r[r.len() - 1] == asset_of(entries[i]));
            }
        }
        assert forall|k: int| #![trigger r[k]] 0 <= k < r.len() implies exists|i: int|
            0 <= i < entries.len() && is_named_file(#[trigger] entries[i]) && r[k] == asset_of(
                entries[i],
            ) by {
            if k < prev.len() {
                assert(r[k] == prev[k]);
                let i = choose|i: int|
                    0 <= i < init.len() && is_named_file(#[trigger] init[i]) && prev[k] == asset_of(
                        init[i],
                    );
                assert(entries[i] == init[i]);
            } else {
                assert(is_named_file(entries[entries.len() - 1]));
            }
        }
    }
}

/// The files of a skin folder, each named by its upper-cased file name and
/// pointing at its path.
pub fn read_imported_assets(listing: &FolderListing) -> (r: Vec<SkinAsset>)
    ensures
        asset_views(r@) == imported_assets(listing.entries@),
        r@.len() == named_file_count(listing.entries@),
        forall|i: int|
            0 <= i < listing.entries@.len() && is_named_file(#[trigger] listing.entries@[i])
                ==> asset_views(r@).contains(asset_of(listing.entries@[i])),
{
    proof {
        lemma_imported_assets_are_the_files(listing.entries@);
    }
    let mut assets: Vec<SkinAsset> = Vec::new();
    let ghost entries = listing.entries@;
    assert(entries.take(0) =~= Seq::<FolderEntry>::empty());
    for i in 0..listing.entries.len()
        invariant
            entries == listing.entries@,
            asset_views(assets@) == imported_assets(entries.take(i as int)),
    {
        let entry = &listing.entries[i];
        assert(entries.take(i + 1).drop_last() =~= entries.take(i as int));
        assert(entries.take(i + 1).last() == *entry);
        if entry.is_file {
            match uppercase_file_name(entry.path.as_str()) {
                Some(name) => {
                    let path = entry.path.clone();
                    assets.push(SkinAsset { name, path: Some(path) });
                    assert(asset_views(assets@) =~= imported_assets(entries.take(i + 1)));
                },
                None => {},
            }
        }
    }
    assert(entries.take(listing.entries.len() as int) =~= entries);
    assets
}

// ---------------------------------------------------------------------------
// Skin folders.
// ---------------------------------------------------------------------------
/// The first of the listings that holds `MAIN.BMP`.
pub open spec fn first_with_main(subs: Seq<FolderListing>) -> Option<FolderListing>
    decreases subs.len(),
{
    if subs.len() == 0 {
        None
    } else if listing_has_asset(subs[0].entries@, MAIN_ASSET@) {
        Some(subs[0])
    } else {
        first_with_main(subs.drop_first())
    }
}

/// Where a scanned folder's skin bitmaps are: the folder itself if it holds
/// `MAIN.BMP`, else its first subfolder that does.
pub open spec fn skin_root_of(scan: FolderScan) -> Option<FolderListing> {
    if listing_has_asset(scan.folder.entries@, MAIN_ASSET@) {
        Some(scan.folder)
    } else {
        first_with_main(scan.subfolders@)
    }
}

proof fn lemma_first_with_main_step(subs: Seq<FolderListing>, i: int)
    requires
        0 <= i < subs.len(),
        forall|k: int| 0 <= k < i ==> !listing_has_asset(#[trigger] subs[k].entries@, MAIN_ASSET@),
    ensures
        first_with_main(subs) == first_with_main(subs.skip(i)),
    decreases i,
{
    if i > 0 {
        lemma_first_with_main_step(subs.drop_first(), i - 1);
        assert(subs.drop_first().skip(i - 1) =~= subs.skip(i));
    } else {
        assert(subs.skip(0) =~= subs);
    }
}

proof fn lemma_first_with_main_none(subs: Seq<FolderListing>)
    requires
        forall|k: int| 0 <= k < subs.len() ==> !listing_has_asset(#[trigger] subs[k].entries@, MAIN_ASSET@),
    ensures
        first_with_main(subs) is None,
    decreases subs.len(),
{
    if subs.len() > 0 {
        assert(!listing_has_asset(subs[0].entries@, MAIN_ASSET@));
        lemma_first_with_main_none(subs.drop_first());
    }
}

/// The folder of a scan that holds the skin's bitmaps: the scanned folder
/// if it holds `MAIN.BMP`, else the first of its subfolders that does.
pub fn skin_root(scan: &FolderScan) -> (r: Option<&FolderListing>)
    ensures
        r matches Some(root) ==> skin_root_of(*scan) == Some(*root),
        r is None ==> skin_root_of(*scan) is None,
{
    if contains_asset(&scan.folder, MAIN_ASSET) {
        return Some(&scan.folder);
    }
    for i in 0..scan.subfolders.len()
        invariant
            !listing_has_asset(scan.folder.entries@, MAIN_ASSET@),
            forall|k: int|
                0 <= k < i ==> !listing_has_asset(
                    #[trigger] scan.subfolders@[k].entries@,
                    MAIN_ASSET@,
                ),
    {
        if contains_asset(&scan.subfolders[i], MAIN_ASSET) {
            proof {
                lemma_first_with_main_step(scan.subfolders@, i as int);
            }
            return Some(&scan.subfolders[i]);
        }
    }
    proof {
        lemma_first_with_main_none(scan.subfolders@);
    }
    None
}

/// The skin a scanned folder holds: none if no `MAIN.BMP` is found or the
/// folder that holds it has no name; else a skin whose id is that folder's
/// name, whose display name is made from the id, and whose assets are that
/// folder's files.
pub open spec fn skin_info_of(scan: FolderScan) -> Option<SkinInfoView> {
    match skin_root_of(scan) {
        None => None,
        Some(root) => match path_file_name(root.path@) {
            None => None,
            Some(id) => Some(
                SkinInfoView {
                    id,
                    name: display_name(id),
                    bundled: false,
                    assets: imported_assets(root.entries@),
                },
            ),
        },
    }
}

/// The skin has an asset named `name`.
pub open spec fn has_asset_named(assets: Seq<AssetView>, name: Seq<char>) -> bool {
    exists|i: int| 0 <= i < assets.len() && (#[trigger] assets[i]).name == name
}

/// A folder that holds a file named `asset` has an imported asset of that name.
pub proof fn lemma_imported_assets_has(entries: Seq<FolderEntry>, asset: Seq<char>)
    requires
        listing_has_asset(entries, asset),
    ensures
        has_asset_named(imported_assets(entries), asset),
    decreases entries.len(),
{
    let k = choose|k: int| 0 <= k < entries.len() && entry_is_asset(#[trigger] entries[k], asset);
    let init = entries.drop_last();
    let prev = imported_assets(init);
    if k < entries.len() - 1 {
        assert(init[k] == entries[k]);
        lemma_imported_assets_has(init, asset);
        let j = choose|j: int| 0 <= j < prev.len() && (#[trigger] prev[j]).name == asset;
        assert(imported_assets(entries)[j] == prev[j]);
    } else {
        let r = imported_assets(entries);
        assert(r[r.len() - 1].name == asset);
    }
}

proof fn lemma_first_with_main_has_main(subs: Seq<FolderListing>)
    requires
        first_with_main(subs) is Some,
    ensures
        listing_has_asset(first_with_main(subs).unwrap().entries@, MAIN_ASSET@),
    decreases subs.len(),
{
    if !listing_has_asset(subs[0].entries@, MAIN_ASSET@) {
        lemma_first_with_main_has_main(subs.drop_first());
    }
}

/// Every skin found in a folder has the main bitmap among its assets.
pub proof fn lemma_found_skin_has_main(scan: FolderScan)
    requires
        skin_info_of(scan) is Some,
    ensures
        has_asset_named(skin_info_of(scan).unwrap().assets, MAIN_ASSET@),
{
    if !listing_has_asset(scan.folder.entries@, MAIN_ASSET@) {
        lemma_first_with_main_has_main(scan.subfolders@);
    }
    lemma_imported_assets_has(skin_root_of(scan).unwrap().entries@, MAIN_ASSET@);
}

pub open spec fn opt_info_view(o: Option<SkinInfo>) -> Option<SkinInfoView> {
    match o {
        Some(i) => Some(i@),
        None => None,
    }
}

/// The skin held by a scanned folder (see `skin_info_of`).
pub fn read_skin_info(scan: &FolderScan) -> (r: Option<SkinInfo>)
    ensures
        opt_info_view(r) == skin_info_of(*scan),
        r matches Some(info) ==> has_asset_named(info@.assets, MAIN_ASSET@),
{
    proof {
        if skin_info_of(*scan) is Some {
            lemma_found_skin_has_main(*scan);
        }
    }
    let root = match skin_root(scan) {
        Some(root) => root,
        None => return None,
    };
    let id = match file_name(root.path.as_str()) {
        Some(id) => id,
        None => return None,
    };
    let name = display_name_from_id(id.as_str());
    let assets = read_imported_assets(root);
    Some(SkinInfo { name, id, bundled: false, assets })
}

// ---------------------------------------------------------------------------
// Listings of skins, ordered by name.
// ---------------------------------------------------------------------------
/// `a` comes before `b`, or equals it, in the order of `str`'s `Ord`:
/// lexicographic by code point.
pub open spec fn text_le(a: Seq<char>, b: Seq<char>) -> bool
    decreases a.len(),
{
    if a.len() == 0 {
        true
    } else if b.len() == 0 {
        false
    } else if a[0] != b[0] {
        a[0] < b[0]
    } else {
        text_le(a.drop_first(), b.drop_first())
    }
}

/// The key a listing of skins is ordered by: the lowercased display name.
pub open spec fn name_key(s: SkinInfoView) -> Seq<char> {
    str_lowercase(s.name)
}

/// `x` placed after the last element of `sorted` whose key is not above its own.
pub open spec fn insert_by_name(sorted: Seq<SkinInfoView>, x: SkinInfoView) -> Seq<SkinInfoView>
    decreases sorted.len(),
{
    if sorted.len() == 0 {
        seq![x]
    } else if text_le(name_key(sorted.last()), name_key(x)) {
        sorted.push(x)
    } else {
        insert_by_name(sorted.drop_last(), x).push(sorted.last())
    }
}

/// The stable sort of `s` by `name_key`.
pub open spec fn sort_by_name(s: Seq<SkinInfoView>) -> Seq<SkinInfoView>
    decreases s.len(),
{
    if s.len() == 0 {
        Seq::empty()
    } else {
        insert_by_name(sort_by_name(s.drop_last()), s.last())
    }
}

/// The skins that a list of scanned folders holds, in order.
pub open spec fn skins_found(scans: Seq<FolderScan>) -> Seq<SkinInfoView>
    decreases scans.len(),
{
    if scans.len() == 0 {
        Seq::empty()
    } else {
        let prev = skins_found(scans.drop_last());
        match skin_info_of(scans.last()) {
            Some(info) => prev.push(info),
            None => prev,
        }
    }
}

/// Every skin found in scanned folders has the main bitmap among its assets.
pub proof fn lemma_skins_found_have_main(scans: Seq<FolderScan>)
    ensures
        forall|i: int|
            0 <= i < skins_found(scans).len() ==> has_asset_named(
                (#[trigger] skins_found(scans)[i]).assets,
                MAIN_ASSET@,
            ),
    decreases scans.len(),
{
    if scans.len() > 0 {
        lemma_skins_found_have_main(scans.drop_last());
        if skin_info_of(scans.last()) is Some {
            lemma_found_skin_has_main(scans.last());
        }
        let prev = skins_found(scans.drop_last());
        assert forall|i: int| 0 <= i < skins_found(scans).len() implies has_asset_named(
            (#[trigger] skins_found(scans)[i]).assets,
            MAIN_ASSET@,
        ) by {
            if i < prev.len() {
                assert(skins_found(scans)[i] == prev[i]);
            }
        }
    }
}

pub open spec fn is_sorted_by_name(s: Seq<SkinInfoView>) -> bool {
    forall|i: int, j: int| 0 <= i < j < s.len() ==> text_le(name_key(#[trigger] s[i]), name_key(#[trigger] s[j]))
}

/// `a` is a prefix of `b`.
pub open spec fn is_prefix_of(a: Seq<char>, b: Seq<char>) -> bool {
    a.len() <= b.len() && forall|i: int| 0 <= i < a.len() ==> a[i] == b[i]
}

/// `a` comes strictly before `b` at their first differing position.
pub open spec fn differs_below(a: Seq<char>, b: Seq<char>) -> bool {
    exists|k: int|
        0 <= k < a.len() && k < b.len() && a[k] < b[k] && (forall|i: int|
            0 <= i < k ==> a[i] == b[i])
}

/// `text_le` is the lexicographic order of `str`: `a` is not above `b`
/// exactly when `a` is a prefix of `b`, or at the first position where they
/// differ, `a` has the smaller char.  So a proper prefix comes first, and the
/// order is antisymmetric.
pub proof fn lemma_text_le_lexicographic(a: Seq<char>, b: Seq<char>)
    ensures
        text_le(a, b) <==> (is_prefix_of(a, b) || differs_below(a, b)),
        is_prefix_of(a, b) && a.len() < b.len() ==> !text_le(b, a),
        text_le(a, b) && text_le(b, a) ==> a == b,
    decreases a.len(),
{
    if a.len() == 0 {
        if b.len() > 0 {
            assert(!is_prefix_of(b, a));
            assert(!differs_below(b, a));
        }
        assert(text_le(b, a) ==> b.len() == 0);
        if text_le(b, a) && b.len() == 0 {
            assert(a =~= b);
        }
    } else if b.len() == 0 {
        assert(!is_prefix_of(a, b));
        assert(!differs_below(a, b));
    } else {
        let a1 = a.drop_first();
        let b1 = b.drop_first();
        lemma_text_le_lexicographic(a1, b1);
        if a[0] != b[0] {
            if a[0] < b[0] {
                assert(differs_below(a, b)) by {
                    assert(0 < a.len() && 0 < b.len() && a[0] < b[0]);
                }
            } else {
                assert(!is_prefix_of(a, b));
                if differs_below(a, b) {
                    let k = choose|k: int|
                        0 <= k < a.len() && k < b.len() && a[k] < b[k] && (forall|i: int|
                            0 <= i < k ==> a[i] == b[i]);
                    if k > 0 {
                        assert(a[0] == b[0]);
                    }
                }
            }
            assert(!is_prefix_of(b, a));
        } else {
            assert(is_prefix_of(a, b) <==> is_prefix_of(a1, b1)) by {
                if is_prefix_of(a1, b1) {
                    assert forall|i: int| 0 <= i < a.len() implies a[i] == b[i] by {
                        if i > 0 {
                            assert(a[i] == a1[i - 1] && b[i] == b1[i - 1]);
                        }
                    }
                }
                if is_prefix_of(a, b) {
                    assert forall|i: int| 0 <= i < a1.len() implies a1[i] == b1[i] by {
                        assert(a1[i] == a[i + 1] && b1[i] == b[i + 1]);
                    }
                }
            }
            assert(differs_below(a, b) <==> differs_below(a1, b1)) by {
                if differs_below(a1, b1) {
                    let k = choose|k: int|
                        0 <= k < a1.len() && k < b1.len() && a1[k] < b1[k] && (forall|i: int|
                            0 <= i < k ==> a1[i] == b1[i]);
                    assert(a[k + 1] == a1[k] && b[k + 1] == b1[k]);
                    assert forall|i: int| 0 <= i < k + 1 implies a[i] == b[i] by {
                        if i > 0 {
                            assert(a[i] == a1[i - 1] && b[i] == b1[i - 1]);
                        }
                    }
                }
                if differs_below(a, b) {
                    let k = choose|k: int|
                        0 <= k < a.len() && k < b.len() && a[k] < b[k] && (forall|i: int|
                            0 <= i < k ==> a[i] == b[i]);
                    assert(k > 0);
                    assert(a1[k - 1] == a[k] && b1[k - 1] == b[k]);
                    assert forall|i: int| 0 <= i < k - 1 implies a1[i] == b1[i] by {
                        assert(a1[i] == a[i + 1] && b1[i] == b[i + 1]);
                    }
                }
            }
            assert(is_prefix_of(b, a) <==> is_prefix_of(b1, a1)) by {
                if is_prefix_of(b1, a1) {
                    assert forall|i: int| 0 <= i < b.len() implies b[i] == a[i] by {
                        if i > 0 {
                            assert(a[i] == a1[i - 1] && b[i] == b1[i - 1]);
                        }
                    }
                }
                if is_prefix_of(b, a) {
                    assert forall|i: int| 0 <= i < b1.len() implies b1[i] == a1[i] by {
                        assert(a1[i] == a[i + 1] && b1[i] == b[i + 1]);
                    }
                }
            }
            if text_le(a, b) && text_le(b, a) {
                assert(a1 == b1);
                assert(a =~= b) by {
                    assert forall|i: int| 0 <= i < a.len() implies a[i] == b[i] by {
                        if i > 0 {
                            assert(a[i] == a1[i - 1] && b[i] == b1[i - 1]);
                        }
                    }
                }
            }
        }
    }
}

/// `text_le` is total.
pub proof fn lemma_text_le_total(a: Seq<char>, b: Seq<char>)
    ensures
        text_le(a, b) || text_le(b, a),
    decreases a.len(),
{
    if a.len() > 0 && b.len() > 0 && a[0] == b[0] {
        lemma_text_le_total(a.drop_first(), b.drop_first());
    }
}

/// `text_le` is transitive.
pub proof fn lemma_text_le_transitive(a: Seq<char>, b: Seq<char>, c: Seq<char>)
    requires
        text_le(a, b),
        text_le(b, c),
    ensures
        text_le(a, c),
    decreases a.len(),
{
    if a.len() > 0 && b.len() > 0 && c.len() > 0 && a[0] == b[0] && b[0] == c[0] {
        lemma_text_le_transitive(a.drop_first(), b.drop_first(), c.drop_first());
    }
}

/// Inserting into a sorted sequence keeps it sorted and adds exactly `x`.
pub proof fn lemma_insert_by_name(sorted: Seq<SkinInfoView>, x: SkinInfoView)
    requires
        is_sorted_by_name(sorted),
    ensures
        is_sorted_by_name(insert_by_name(sorted, x)),
        insert_by_name(sorted, x).to_multiset() == sorted.to_multiset().insert(x),
        insert_by_name(sorted, x).len() == sorted.len() + 1,
    decreases sorted.len(),
{
    broadcast use vstd::seq_lib::group_to_multiset_ensures;
    let r = insert_by_name(sorted, x);
    if sorted.len() == 0 {
        assert(seq![x].to_multiset() =~= vstd::multiset::Multiset::empty().insert(x)) by {
            assert(seq![x] =~= Seq::<SkinInfoView>::empty().push(x));
        }
    } else if text_le(name_key(sorted.last()), name_key(x)) {
        assert forall|i: int, j: int| 0 <= i < j < r.len() implies text_le(
            name_key(#[trigger] r[i]),
            name_key(#[trigger] r[j]),
        ) by {
            if j == sorted.len() && i < sorted.len() - 1 {
                lemma_text_le_transitive(
                    name_key(sorted[i]),
                    name_key(sorted.last()),
                    name_key(x),
                );
            }
        }
    } else {
        let last = sorted.last();
        let init = sorted.drop_last();
        lemma_insert_by_name(init, x);
        let mid = insert_by_name(init, x);
        lemma_text_le_total(name_key(last), name_key(x));
        assert(sorted =~= init.push(last));
        assert forall|i: int, j: int| 0 <= i < j < r.len() implies text_le(
            name_key(#[trigger] r[i]),
            name_key(#[trigger] r[j]),
        ) by {
            if j == r.len() - 1 && i < j {
                // every element of `mid` is an element of `init` or `x`
                let m = mid[i];
                assert(mid.to_multiset().contains(m));
                assert(init.to_multiset().insert(x).contains(m));
                if m == x {
                } else {
                    assert(init.to_multiset().contains(m));
                    assert(init.contains(m));
                    let k = choose|k: int| 0 <= k < init.len() && init[k] == m;
                    assert(sorted[k] == m);
                    assert(text_le(name_key(sorted[k]), name_key(sorted[sorted.len() - 1])));
                }
            }
        }
    }
}

/// The stable sort by name yields a sorted permutation of its input.
pub proof fn lemma_sort_by_name(s: Seq<SkinInfoView>)
    ensures
        is_sorted_by_name(sort_by_name(s)),
        sort_by_name(s).to_multiset() == s.to_multiset(),
        sort_by_name(s).len() == s.len(),
    decreases s.len(),
{
    broadcast use vstd::seq_lib::group_to_multiset_ensures;
    if s.len() > 0 {
        lemma_sort_by_name(s.drop_last());
        lemma_insert_by_name(sort_by_name(s.drop_last()), s.last());
        assert(s =~= s.drop_last().push(s.last()));
    }
}

/// `insert_by_name` places `x` at the position that a scan from the end finds.
proof fn lemma_insert_at(sorted: Seq<SkinInfoView>, x: SkinInfoView, j: int)
    requires
        0 <= j <= sorted.len(),
        forall|i: int| j <= i < sorted.len() ==> !text_le(name_key(#[trigger] sorted[i]), name_key(x)),
        j == 0 || text_le(name_key(sorted[j - 1]), name_key(x)),
    ensures
        insert_by_name(sorted, x) == sorted.insert(j, x),
    decreases sorted.len(),
{
    if sorted.len() == 0 {
        assert(sorted.insert(j, x) =~= seq![x]);
    } else if text_le(name_key(sorted.last()), name_key(x)) {
        assert(j == sorted.len());
        assert(sorted.insert(j, x) =~= sorted.push(x));
    } else {
        assert(j < sorted.len());
        lemma_insert_at(sorted.drop_last(), x, j);
        assert(sorted.drop_last().insert(j, x).push(sorted.last()) =~= sorted.insert(j, x));
    }
}

/// Whether `a` is not above `b` in `text_le`.
fn text_le_exec(a: &Vec<char>, b: &Vec<char>) -> (r: bool)
    ensures
        r == text_le(a@, b@),
{
    let mut i: usize = 0;
    assert(a@.skip(0) =~= a@);
    assert(b@.skip(0) =~= b@);
    loop
        invariant
            i <= a.len(),
            i <= b.len(),
            text_le(a@, b@) == text_le(a@.skip(i as int), b@.skip(i as int)),
        decreases a.len() - i,
    {
        if i == a.len() {
            return true;
        }
        if i == b.len() {
            return false;
        }
        if a[i] != b[i] {
            return a[i] < b[i];
        }
        assert(a@.skip(i as int).drop_first() =~= a@.skip(i + 1));
        assert(b@.skip(i as int).drop_first() =~= b@.skip(i + 1));
        i = i + 1;
    }
}

/// The skins sorted by lowercased display name; skins with the same key keep
/// their order.
pub fn sort_skins_by_name(skins: Vec<SkinInfo>) -> (r: Vec<SkinInfo>)
    ensures
        info_views(r@) == sort_by_name(info_views(skins@)),
{
    let ghost orig = info_views(skins@);
    assert(orig.len() == skins.len());
    let mut rest = skins;
    let mut out: Vec<SkinInfo> = Vec::new();
    let mut keys: Vec<Vec<char>> = Vec::new();
    let mut done: usize = 0;
    assert(orig.take(0) =~= Seq::<SkinInfoView>::empty());
    assert(orig.skip(0) =~= orig);
    while rest.len() > 0
        invariant
            orig.len() <= usize::MAX,
            done + rest.len() == orig.len(),
            info_views(rest@) == orig.skip(done as int),
            info_views(out@) == sort_by_name(orig.take(done as int)),
            keys.len() == out.len(),
            forall|k: int| 0 <= k < keys.len() ==> (#[trigger] keys@[k])@ == name_key(out@[k]@),
        decreases rest.len(),
    {
        let ghost rest_before = rest@;
        assert(info_views(rest_before)[0] == rest_before[0]@);
        let x = rest.remove(0);
        assert(x@ == orig[done as int]);
        assert(info_views(rest@) =~= info_views(rest_before).drop_first());
        assert(info_views(rest@) =~= orig.skip(done + 1));
        let lowered = lowercase_str(x.name.as_str());
        let key = chars_of(lowered.as_str());
        let mut j: usize = out.len();
        while j > 0 && !text_le_exec(&keys[j - 1], &key)
            invariant
                j <= out.len(),
                keys.len() == out.len(),
                forall|k: int| 0 <= k < keys.len() ==> (#[trigger] keys@[k])@ == name_key(out@[k]@),
                forall|i: int| j <= i < out.len() ==> !text_le(name_key(#[trigger] out@[i]@), key@),
            decreases j,
        {
            j = j - 1;
        }
        let ghost before = info_views(out@);
        let ghost keys_before = keys@;
        let ghost out_before = out@;
        proof {
            assert(key@ == name_key(x@));
            assert forall|i: int| j <= i < before.len() implies !text_le(
                name_key(#[trigger] before[i]),
                name_key(x@),
            ) by {
                assert(before[i] == out@[i]@);
            }
            if j > 0 {
                assert(before[j - 1] == out@[j - 1]@);
            }
            lemma_insert_at(before, x@, j as int);
            assert(orig.take(done + 1).drop_last() =~= orig.take(done as int));
        }
        out.insert(j, x);
        keys.insert(j, key);
        assert(info_views(out@) =~= before.insert(j as int, x@));
        done = done + 1;
        assert forall|k: int| 0 <= k < keys.len() implies (#[trigger] keys@[k])@ == name_key(
            out@[k]@,
        ) by {
            if k < j {
                assert(keys@[k] == keys_before[k] && out@[k] == out_before[k]);
            } else if k == j {
            } else {
                assert(keys@[k] == keys_before[k - 1] && out@[k] == out_before[k - 1]);
            }
        }
    }
    assert(orig.take(done as int) =~= orig);
    out
}

/// The skins held by the scanned folders of a skins folder, ordered by
/// lowercased display name (folders without a skin are left out).
pub fn list_skins_in_dir(scans: &Vec<FolderScan>) -> (r: Vec<SkinInfo>)
    ensures
        info_views(r@) == sort_by_name(skins_found(scans@)),
        is_sorted_by_name(info_views(r@)),
        info_views(r@).to_multiset() == skins_found(scans@).to_multiset(),
        forall|i: int|
            0 <= i < r@.len() ==> has_asset_named((#[trigger] info_views(r@)[i]).assets, MAIN_ASSET@),
{
    let mut found: Vec<SkinInfo> = Vec::new();
    let ghost all = scans@;
    assert(all.take(0) =~= Seq::<FolderScan>::empty());
    for i in 0..scans.len()
        invariant
            all == scans@,
            info_views(found@) == skins_found(all.take(i as int)),
    {
        assert(all.take(i + 1).drop_last() =~= all.take(i as int));
        match read_skin_info(&scans[i]) {
            Some(info) => {
                found.push(info);
                assert(info_views(found@) =~= skins_found(all.take(i + 1)));
            },
            None => {},
        }
    }
    assert(all.take(scans.len() as int) =~= all);
    let r = sort_skins_by_name(found);
    proof {
        let found_views = skins_found(scans@);
        lemma_sort_by_name(found_views);
        lemma_skins_found_have_main(scans@);
        let rv = info_views(r@);
        assert forall|i: int| 0 <= i < r@.len() implies has_asset_named(
            (#[trigger] info_views(r@)[i]).assets,
            MAIN_ASSET@,
        ) by {
            broadcast use vstd::seq_lib::group_to_multiset_ensures;
            assert(rv.to_multiset().contains(rv[i]));
            assert(found_views.to_multiset().contains(rv[i]));
            assert(found_views.contains(rv[i]));
            let k = choose|k: int| 0 <= k < found_views.len() && found_views[k] == rv[i];
            assert(has_asset_named(found_views[k].assets, MAIN_ASSET@));
        }
    }
    r
}

} // verus!
