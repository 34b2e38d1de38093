//! The skin library shown to the front end: the bundled skin, then every
//! installed and project skin whose id is new, and the current skin.
use vstd::prelude::*;
use crate::naming::names_of;
use crate::paths::{join, parent, path_join, path_parent};
use crate::skins::{
    bundled_skin, bundled_skin_view, info_views, opt_view, SkinInfo, SkinInfoView, DEFAULT_SKIN_ID,
};
use crate::text::chars_of;
use crate::text::string_of;
use crate::naming::contains_name;

verus! {

/// The folder name of the skins that ship beside the application.
pub const PROJECT_SKINS_DIR: &'static str = "skins";

/// What the front end is shown: the current skin's id, where imported skins
/// are kept, and every available skin.
#[derive(Debug, Clone, PartialEq, Eq)]
pub struct SkinLibrary {
    pub current_skin_id: String,
    pub skins_dir: String,
    pub skins: Vec<SkinInfo>,
}

pub struct SkinLibraryView {
    pub current_skin_id: Seq<char>,
    pub skins_dir: Seq<char>,
    pub skins: Seq<SkinInfoView>,
}

impl View for SkinLibrary {
    type V = SkinLibraryView;

    open spec fn view(&self) -> SkinLibraryView {
        SkinLibraryView {
            current_skin_id: self.current_skin_id@,
            skins_dir: self.skins_dir@,
            skins: info_views(self.skins@),
        }
    }
}

/// The ids of a list of skins.
pub open spec fn skin_ids(s: Seq<SkinInfoView>) -> Seq<Seq<char>> {
    s.map_values(|i: SkinInfoView| i.id)
}

/// The skins of `s` whose id did not occur earlier in `s`, in order.
pub open spec fn first_of_each_id(s: Seq<SkinInfoView>) -> Seq<SkinInfoView>
    decreases s.len(),
{
    if s.len() == 0 {
        Seq::empty()
    } else {
        let prev = first_of_each_id(s.drop_last());
        if skin_ids(prev).contains(s.last().id) {
            prev
        } else {
            prev.push(s.last())
        }
    }
}

/// Every skin offered: the bundled skin, then the installed skins, then the
/// project skins.
pub open spec fn offered_skins(installed: Seq<SkinInfoView>, project: Seq<SkinInfoView>) -> Seq<
    SkinInfoView,
> {
    seq![bundled_skin_view()] + installed + project
}

/// The library built from the offered skins: the first skin of each id,
/// and the requested current id if such a skin is there, else the bundled
/// skin's id.
pub open spec fn library_of(
    skins_dir: Seq<char>,
    installed: Seq<SkinInfoView>,
    project: Seq<SkinInfoView>,
    current_skin_id: Seq<char>,
) -> SkinLibraryView {
    let skins = first_of_each_id(offered_skins(installed, project));
    SkinLibraryView {
        current_skin_id: if skin_ids(skins).contains(current_skin_id) {
            current_skin_id
        } else {
            DEFAULT_SKIN_ID@
        },
        skins_dir,
        skins,
    }
}

/// What keeping the first skin of each id guarantees: ids occur once, every
/// kept skin was offered, every offered id is kept, and the first offered
/// skin comes first.
pub proof fn lemma_first_of_each_id(s: Seq<SkinInfoView>)
    ensures
        skin_ids(first_of_each_id(s)).no_duplicates(),
        forall|i: int|
            0 <= i < first_of_each_id(s).len() ==> s.contains(#[trigger] first_of_each_id(s)[i]),
        forall|i: int| 0 <= i < s.len() ==> skin_ids(first_of_each_id(s)).contains(#[trigger] s[i].id),
        s.len() > 0 ==> first_of_each_id(s).len() > 0 && first_of_each_id(s)[0] == s[0],
    decreases s.len(),
{
    if s.len() > 0 {
        let init = s.drop_last();
        lemma_first_of_each_id(init);
        let prev = first_of_each_id(init);
        let r = first_of_each_id(s);
        if !skin_ids(prev).contains(s.last().id) {
            assert(skin_ids(r) =~= skin_ids(prev).push(s.last().id));
        }
        assert forall|i: int| 0 <= i < r.len() implies s.contains(#[trigger] r[i]) by {
            if i < prev.len() {
                assert(init.contains(prev[i]));
                let k = choose|k: int| 0 <= k < init.len() && init[k] == prev[i];
                assert(s[k] == prev[i]);
            } else {
                assert(r[i] == s[s.len() - 1]);
            }
        }
        assert forall|i: int| 0 <= i < s.len() implies skin_ids(r).contains(#[trigger] s[i].id) by {
            if i < s.len() - 1 {
                assert(init[i] == s[i]);
                assert(skin_ids(prev).contains(init[i].id));
                let k = choose|k: int| 0 <= k < skin_ids(prev).len() && skin_ids(prev)[k] == init[i].id;
                assert(skin_ids(r)[k] == skin_ids(prev)[k]);
            } else if skin_ids(prev).contains(s.last().id) {
                let k = choose|k: int| 0 <= k < skin_ids(prev).len() && skin_ids(prev)[k] == s.last().id;
                assert(skin_ids(r)[k] == skin_ids(prev)[k]);
            } else {
                assert(skin_ids(r)[r.len() - 1] == s.last().id);
            }
        }
        if s.len() > 1 {
            assert(init[0] == s[0]);
        }
    }
}

/// The library: the bundled skin, then each installed skin and each project
/// skin whose id was not seen before; the requested current id if a skin of
/// the library has it, else the bundled skin's id.
pub fn build_skin_library(
    skins_dir: String,
    installed: Vec<SkinInfo>,
    project: Vec<SkinInfo>,
    current_skin_id: String,
) -> (r: SkinLibrary)
    ensures
        r@ == library_of(
            skins_dir@,
            info_views(installed@),
            info_views(project@),
            current_skin_id@,
        ),
        skin_ids(r@.skins).no_duplicates(),
        r@.skins.len() > 0 && r@.skins[0] == bundled_skin_view(),
        skin_ids(r@.skins).contains(r@.current_skin_id),
        forall|i: int|
            0 <= i < r@.skins.len() ==> offered_skins(
                info_views(installed@),
                info_views(project@),
            ).contains(#[trigger] r@.skins[i]),
        forall|i: int|
            0 <= i < offered_skins(info_views(installed@), info_views(project@)).len()
                ==> skin_ids(r@.skins).contains(
                #[trigger] offered_skins(info_views(installed@), info_views(project@))[i].id,
            ),
{
    let ghost offered = offered_skins(info_views(installed@), info_views(project@));
    let mut incoming = installed;
    let mut project = project;
    incoming.append(&mut project);
    assert(offered =~= seq![bundled_skin_view()] + info_views(incoming@));
    let mut skins: Vec<SkinInfo> = Vec::new();
    let mut ids: Vec<String> = Vec::new();
    let bundled = bundled_skin();
    ids.push(bundled.id.clone());
    skins.push(bundled);
    let ghost mut done: int = 1;
    assert(offered.take(1) =~= seq![bundled_skin_view()]);
    assert(first_of_each_id(offered.take(1)) =~= seq![bundled_skin_view()]) by {
        let e = Seq::<SkinInfoView>::empty();
        assert(offered.take(1).drop_last() =~= e);
        assert(first_of_each_id(e) == e);
        assert(!skin_ids(e).contains(bundled_skin_view().id));
        assert(e.push(bundled_skin_view()) =~= seq![bundled_skin_view()]);
    }
    assert(info_views(incoming@) =~= offered.skip(1));
    while incoming.len() > 0
        invariant
            1 <= done <= offered.len(),
            done + incoming.len() == offered.len(),
            info_views(incoming@) == offered.skip(done as int),
            info_views(skins@) == first_of_each_id(offered.take(done as int)),
            names_of(ids@) == skin_ids(info_views(skins@)),
        decreases incoming.len(),
    {
        let ghost before = incoming@;
        assert(info_views(before)[0] == before[0]@);
        let skin = incoming.remove(0);
        assert(skin@ == offered[done as int]);
        assert(info_views(incoming@) =~= info_views(before).drop_first());
        assert(info_views(incoming@) =~= offered.skip(done + 1));
        assert(offered.take(done + 1).drop_last() =~= offered.take(done as int));
        let ghost skins_before = skins@;
        let ghost ids_before = ids@;
        if !contains_name(&ids, &skin.id) {
            ids.push(skin.id.clone());
            skins.push(skin);
            assert(info_views(skins@) =~= info_views(skins_before).push(skins@[skins@.len() - 1]@));
            assert(names_of(ids@) =~= names_of(ids_before).push(ids@[ids@.len() - 1]@));
            assert(skin_ids(info_views(skins@)) =~= skin_ids(info_views(skins_before)).push(
                skins@[skins@.len() - 1]@.id,
            ));
        }
        proof {
            done = done + 1;
        }
    }
    assert(offered.take(done as int) =~= offered);
    let current = if contains_name(&ids, &current_skin_id) {
        current_skin_id
    } else {
        String::from_str(DEFAULT_SKIN_ID)
    };
    proof {
        lemma_first_of_each_id(offered);
        let ks = first_of_each_id(offered);
        assert(offered[0] == bundled_skin_view());
        assert(skin_ids(ks).contains(offered[0].id));
    }
    SkinLibrary { current_skin_id: current, skins_dir, skins }
}

/// Choosing a skin of the library makes it the current skin of the library
/// built next from the same skins.
pub proof fn lemma_chosen_skin_becomes_current(
    skins_dir: Seq<char>,
    installed: Seq<SkinInfoView>,
    project: Seq<SkinInfoView>,
    before: Seq<char>,
    chosen: Seq<char>,
)
    requires
        skin_ids(library_of(skins_dir, installed, project, before).skins).contains(chosen),
    ensures
        library_of(skins_dir, installed, project, chosen).current_skin_id == chosen,
        library_of(skins_dir, installed, project, chosen).skins == library_of(
            skins_dir,
            installed,
            project,
            before,
        ).skins,
{
}

/// Any skin that is offered, such as a freshly imported one among the
/// installed skins, becomes the current skin when it is requested.
pub proof fn lemma_offered_skin_can_be_current(
    skins_dir: Seq<char>,
    installed: Seq<SkinInfoView>,
    project: Seq<SkinInfoView>,
    i: int,
)
    requires
        0 <= i < offered_skins(installed, project).len(),
    ensures
        library_of(
            skins_dir,
            installed,
            project,
            offered_skins(installed, project)[i].id,
        ).current_skin_id == offered_skins(installed, project)[i].id,
{
    lemma_first_of_each_id(offered_skins(installed, project));
}

/// The message for a skin id that the library does not hold.
pub open spec fn not_installed_message(id: Seq<char>) -> Seq<char> {
    "Skin '"@ + id + "' is not installed"@
}

/// `Ok` if a skin of the library has the id `id`, else the error that names it.
pub fn ensure_skin_installed(library: &SkinLibrary, id: &str) -> (r: Result<(), String>)
    ensures
        r is Ok <==> skin_ids(library@.skins).contains(id@),
        r matches Err(msg) ==> msg@ == not_installed_message(id@),
{
    let wanted = String::from_str(id);
    for i in 0..library.skins.len()
        invariant
            wanted@ == id@,
            forall|k: int| 0 <= k < i ==> library.skins@[k].id@ != id@,
    {
        if library.skins[i].id == wanted {
            assert(skin_ids(library@.skins)[i as int] == id@);
            return Ok(());
        }
    }
    assert forall|k: int| 0 <= k < skin_ids(library@.skins).len() implies skin_ids(
        library@.skins,
    )[k] != id@ by {
        assert(skin_ids(library@.skins)[k] == library.skins@[k].id@);
    }
    let mut msg = chars_of("Skin '");
    let mid = chars_of(id);
    let tail = chars_of("' is not installed");
    crate::text::append_chars(&mut msg, &mid);
    crate::text::append_chars(&mut msg, &tail);
    Err(string_of(&msg))
}

/// The folder that imported skins are kept in: `skins` in the
/// application's data folder.
pub fn skins_dir_in(app_data_dir: &str) -> (r: String)
    ensures
        r@ == path_join(app_data_dir@, "skins"@),
{
    join(app_data_dir, "skins")
}

/// The project skins folder among the application's resources: `skins` in
/// the resource folder, if it is known.
pub fn get_resource_project_skins_dir(resource_dir: Option<String>) -> (r: Option<String>)
    ensures
        opt_view(r) == match opt_view(resource_dir) {
            Some(d) => Some(path_join(d, PROJECT_SKINS_DIR@)),
            None => None,
        },
{
    match resource_dir {
        Some(dir) => Some(join(dir.as_str(), PROJECT_SKINS_DIR)),
        None => None,
    }
}

/// The project skins: those of the source folder's project skins folder,
/// then those of the resource folder's.
pub fn list_project_skins(source_skins: Vec<SkinInfo>, resource_skins: Vec<SkinInfo>) -> (r: Vec<
    SkinInfo,
>)
    ensures
        info_views(r@) == info_views(source_skins@) + info_views(resource_skins@),
{
    let mut all = source_skins;
    let mut rest = resource_skins;
    let ghost a = all@;
    let ghost b = rest@;
    all.append(&mut rest);
    assert(info_views(all@) =~= info_views(a) + info_views(b));
    all
}

/// The project skins folder beside the application's source folder: the
/// `skins` folder in the parent of `manifest_dir`, if it has a parent.
pub fn get_source_project_skins_dir(manifest_dir: &str) -> (r: Option<String>)
    ensures
        opt_view(r) == match path_parent(manifest_dir@) {
            Some(p) => Some(path_join(p, PROJECT_SKINS_DIR@)),
            None => None,
        },
{
    match parent(manifest_dir) {
        Some(project_root) => Some(join(project_root.as_str(), PROJECT_SKINS_DIR)),
        None => None,
    }
}

} // verus!
