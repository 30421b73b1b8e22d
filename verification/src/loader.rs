//! Mod loaders (BepInEx, MelonLoader) in a game directory: where they live, which plugins
//! are installed, which release assets are offered, whether an install is complete, and
//! how a game is started with one.
use vstd::prelude::*;
use crate::json::{
    find_member, json_of, json_parse, json_view, lemma_views_of, member, member_text_of, views_of, Json,
    JsonView,
};
use crate::num::{decimal, parse_unsigned, parse_unsigned_exec, push_decimal};
use crate::order::{lex_lt, same_per_key, sort_names};
use crate::path::{extension, file_name, file_name_bounds, join_path, joined_path, last_dot_exec};
use crate::text::{
    strings_view,
    chars_of, contains, contains_exec, ends_with, ends_with_exec, is_white, lower_ascii_seq,
    lower_ascii_vec, lowercase, push_str, same_chars, string_of, text_result, trim_start,
    unicode_lower,
};

verus! {

/// What a game directory shows of a mod loader.
#[derive(Debug, Clone)]
pub struct LoaderStatus {
    pub installed: bool,
    pub plugins_dir: String,
    pub plugins: Vec<String>,
    pub run_script: Option<String>,
    pub windows_proxy: bool,
}

/// A release asset that can be installed.
#[derive(Debug, Clone)]
pub struct Asset {
    pub name: String,
    pub url: String,
    pub size: u64,
    pub tag: String,
    pub prerelease: bool,
}

/// Whether the loader named is BepInEx (any other name means MelonLoader).
pub open spec fn is_bepinex(loader: Seq<char>) -> bool {
    loader == "BepInEx"@
}

fn bepinex(loader: &str) -> (r: bool)
    ensures
        r == is_bepinex(loader@),
{
    same_chars(&chars_of(loader), &chars_of("BepInEx"))
}

/// The GitHub repository that releases a loader.
pub open spec fn repo_of(loader: Seq<char>) -> Seq<char> {
    if is_bepinex(loader) {
        "BepInEx/BepInEx"@
    } else {
        "LavaGang/MelonLoader"@
    }
}

/// The GitHub repository that releases a loader.
pub fn repo(loader: &str) -> (r: String)
    ensures
        r@ == repo_of(loader@),
{
    if bepinex(loader) {
        String::from_str("BepInEx/BepInEx")
    } else {
        String::from_str("LavaGang/MelonLoader")
    }
}

/// Where a loader installs itself in a game directory, and where its plugins go.
pub open spec fn layout_of(game_dir: Seq<char>, loader: Seq<char>) -> (Seq<char>, Seq<char>) {
    if is_bepinex(loader) {
        (
            joined_path(game_dir, "BepInEx"@),
            joined_path(joined_path(game_dir, "BepInEx"@), "plugins"@),
        )
    } else {
        (joined_path(game_dir, "MelonLoader"@), joined_path(game_dir, "Mods"@))
    }
}

/// The install and plugin directories of a loader in a game directory.
pub fn layout(game_dir: &str, loader: &str) -> (r: (String, String))
    ensures
        (r.0@, r.1@) == layout_of(game_dir@, loader@),
{
    if bepinex(loader) {
        let install = join_path(game_dir, "BepInEx");
        let plugins = join_path(install.as_str(), "plugins");
        (install, plugins)
    } else {
        (join_path(game_dir, "MelonLoader"), join_path(game_dir, "Mods"))
    }
}

/// Whether a path names a `.dll` (extension `dll` in any ASCII case).
pub open spec fn is_dll(path: Seq<char>) -> bool {
    match extension(path) {
        Some(e) => lower_ascii_seq(e) == "dll"@,
        None => false,
    }
}

/// Whether a path names a `.dll`.
pub fn is_dll_path(path: &str) -> (r: bool)
    ensures
        r == is_dll(path@),
{
    let v = chars_of(path);
    let (a, b) = match file_name_bounds(&v) {
        Some(ab) => ab,
        None => return false,
    };
    let name = &v[a..b];
    match last_dot_exec(name) {
        Some(i) => {
            if i == 0 {
                return false;
            }
            let ext = &name[i + 1..name.len()];
            assert(ext@ =~= name@.skip(i + 1));
            same_chars(&lower_ascii_vec(ext), &chars_of("dll"))
        },
        None => false,
    }
}

/// The file names of the `.dll` files among `paths`, in their order.
pub open spec fn dll_names(paths: Seq<Seq<char>>) -> Seq<Seq<char>>
    decreases paths.len(),
{
    if paths.len() == 0 {
        Seq::empty()
    } else {
        let rest = dll_names(paths.drop_last());
        let p = paths.last();
        if is_dll(p) && file_name(p) is Some {
            rest.push(file_name(p)->0)
        } else {
            rest
        }
    }
}

/// `out` holds the names `names`, sorted.
pub open spec fn sorted_names_of(names: Seq<Seq<char>>, out: Seq<String>) -> bool {
    exists|mid: Seq<String>|
        strings_view(mid) == names && mid.len() == out.len() && (forall|i: int, j: int|
            0 <= i < j < out.len() ==> !lex_lt(out[j]@, out[i]@)) && same_per_key(
            mid,
            out,
            |s: String| s@,
        )
}

/// The installed plugins among the paths of a plugin directory's entries: the `.dll` files'
/// names, sorted.
pub fn plugin_names(paths: &Vec<String>) -> (r: Vec<String>)
    ensures
        sorted_names_of(dll_names(strings_view(paths@)), r@),
{
    let ghost all = strings_view(paths@);
    let mut names: Vec<String> = Vec::new();
    let mut i: usize = 0;
    while i < paths.len()
        invariant
            i <= paths@.len(),
            all == strings_view(paths@),
            strings_view(names@) == dll_names(all.take(i as int)),
        decreases paths@.len() - i,
    {
        assert(all.take(i + 1).drop_last() =~= all.take(i as int));
        assert(all.take(i + 1).last() == paths@[i as int]@);
        let p = paths[i].as_str();
        if is_dll_path(p) {
            let v = chars_of(p);
            if let Some((a, b)) = file_name_bounds(&v) {
                let ghost before = strings_view(names@);
                names.push(string_of(&v, a, b));
                assert(strings_view(names@) =~= before.push(v@.subrange(a as int, b as int)));
            }
        }
        i = i + 1;
    }
    assert(all.take(paths@.len() as int) =~= all);
    let ghost mid = names@;
    let out = sort_names(names);
    assert(strings_view(mid) == dll_names(all) && mid.len() == out@.len() && (forall|i: int, j: int|
        0 <= i < j < out@.len() ==> !lex_lt(out@[j]@, out@[i]@)) && same_per_key(
        mid,
        out@,
        |s: String| s@,
    ));
    out
}

/// What a look at a game directory found, for `status`.
#[derive(Debug, Clone)]
pub struct StatusProbe {
    pub install_dir_exists: bool,
    pub plugin_paths: Vec<String>,
    pub run_script_exists: bool,
    pub winhttp_exists: bool,
    pub version_exists: bool,
}

/// The status of a loader in a game directory, from what a look at the directory found:
/// installed when its install directory exists; its plugins are the sorted `.dll` names in
/// the plugin directory; the BepInEx run script when present; a Windows proxy DLL when
/// `winhttp.dll` or `version.dll` is there.
pub fn status(game_dir: &str, loader: &str, probe: &StatusProbe) -> (r: LoaderStatus)
    ensures
        r.installed == probe.install_dir_exists,
        r.plugins_dir@ == layout_of(game_dir@, loader@).1,
        sorted_names_of(dll_names(strings_view(probe.plugin_paths@)), r.plugins@),
        match r.run_script {
            Some(s) => probe.run_script_exists && s@ == joined_path(game_dir@, "run_bepinex.sh"@),
            None => !probe.run_script_exists,
        },
        r.windows_proxy == (probe.winhttp_exists || probe.version_exists),
{
    let (_, plugins_dir) = layout(game_dir, loader);
    let plugins = plugin_names(&probe.plugin_paths);
    let run_script = if probe.run_script_exists {
        Some(join_path(game_dir, "run_bepinex.sh"))
    } else {
        None
    };
    LoaderStatus {
        installed: probe.install_dir_exists,
        plugins_dir,
        plugins,
        run_script,
        windows_proxy: probe.winhttp_exists || probe.version_exists,
    }
}

/// Where a plugin is copied to, and the name it is listed under.
#[derive(Debug, Clone)]
pub struct PluginCopy {
    pub name: String,
    pub target: String,
}

/// The plugin copy for a `.dll`: its name and its place in the plugin directory.
pub open spec fn plugin_copy_of(plugins_dir: Seq<char>, dll: Seq<char>) -> Result<(Seq<char>, Seq<char>), Seq<char>> {
    if !is_dll(dll) {
        Err("not a .dll file"@)
    } else {
        match file_name(dll) {
            Some(n) => Ok((n, joined_path(plugins_dir, n))),
            None => Err("could not read file name"@),
        }
    }
}

/// Decides where a plugin is copied; the caller makes the directory and copies the file.
pub fn add_plugin(plugins_dir: &str, dll: &str) -> (r: Result<PluginCopy, String>)
    ensures
        match r {
            Ok(c) => plugin_copy_of(plugins_dir@, dll@) == Ok::<(Seq<char>, Seq<char>), Seq<char>>(
                (c.name@, c.target@),
            ),
            Err(e) => plugin_copy_of(plugins_dir@, dll@) == Err::<(Seq<char>, Seq<char>), Seq<char>>(e@),
        },
{
    if !is_dll_path(dll) {
        return Err(String::from_str("not a .dll file"));
    }
    let v = chars_of(dll);
    match file_name_bounds(&v) {
        Some((a, b)) => {
            let name = string_of(&v, a, b);
            let target = join_path(plugins_dir, name.as_str());
            Ok(PluginCopy { name, target })
        },
        None => Err(String::from_str("could not read file name")),
    }
}

/// Whether a release asset is offered: it has a name and a download URL, and its name
/// (lower-cased) ends in `.zip`.
pub open spec fn asset_wanted(name: Seq<char>, url: Seq<char>) -> bool {
    name.len() > 0 && url.len() > 0 && ends_with(unicode_lower(name), ".zip"@)
}

/// One asset of a release as the release list gives it.
#[derive(Debug, Clone)]
pub struct ReleaseAsset {
    pub name: String,
    pub url: String,
    pub size: u64,
}

/// One release as the release list gives it.
#[derive(Debug, Clone)]
pub struct Release {
    pub tag: String,
    pub prerelease: bool,
    pub assets: Vec<ReleaseAsset>,
}

/// The view of an asset.
pub open spec fn asset_view(a: Asset) -> (Seq<char>, Seq<char>, u64, Seq<char>, bool) {
    (a.name@, a.url@, a.size, a.tag@, a.prerelease)
}

/// The view of a release asset: its name, download URL and size.
pub open spec fn asset_triple(a: ReleaseAsset) -> (Seq<char>, Seq<char>, u64) {
    (a.name@, a.url@, a.size)
}

/// The view of a release: its tag, whether it is a prerelease, and its assets.
pub open spec fn release_view(r: Release) -> (Seq<char>, bool, Seq<(Seq<char>, Seq<char>, u64)>) {
    (r.tag@, r.prerelease, r.assets@.map_values(|a: ReleaseAsset| asset_triple(a)))
}

/// The offered assets of one release, in order.
pub open spec fn release_assets(tag: Seq<char>, pre: bool, assets: Seq<(Seq<char>, Seq<char>, u64)>) -> Seq<
    (Seq<char>, Seq<char>, u64, Seq<char>, bool),
>
    decreases assets.len(),
{
    if assets.len() == 0 {
        Seq::empty()
    } else {
        let rest = release_assets(tag, pre, assets.drop_last());
        let a = assets.last();
        if asset_wanted(a.0, a.1) {
            rest.push((a.0, a.1, a.2, tag, pre))
        } else {
            rest
        }
    }
}

/// The offered assets of all releases, release by release.
pub open spec fn all_assets(releases: Seq<(Seq<char>, bool, Seq<(Seq<char>, Seq<char>, u64)>)>) -> Seq<
    (Seq<char>, Seq<char>, u64, Seq<char>, bool),
>
    decreases releases.len(),
{
    if releases.len() == 0 {
        Seq::empty()
    } else {
        let r = releases.last();
        all_assets(releases.drop_last()) + release_assets(r.0, r.1, r.2)
    }
}

/// The assets offered by a GitHub release list reply: an error when the reply carries a
/// `message` (GitHub's way of refusing) or is not a list of releases.
pub open spec fn assets_reply(
    message: Option<Seq<char>>,
    releases: Option<Seq<(Seq<char>, bool, Seq<(Seq<char>, Seq<char>, u64)>)>>,
) -> Result<Seq<(Seq<char>, Seq<char>, u64, Seq<char>, bool)>, Seq<char>> {
    match message {
        Some(m) => Err("GitHub: "@ + m),
        None => match releases {
            Some(rs) => Ok(all_assets(rs)),
            None => Err("unexpected GitHub response"@),
        },
    }
}

/// The view of an optional text.
pub open spec fn message_view(m: Option<String>) -> Option<Seq<char>> {
    match m {
        Some(t) => Some(t@),
        None => None,
    }
}

/// The view of an optional release list.
pub open spec fn releases_view(rs: Option<Vec<Release>>) -> Option<
    Seq<(Seq<char>, bool, Seq<(Seq<char>, Seq<char>, u64)>)>,
> {
    match rs {
        Some(v) => Some(v@.map_values(|r: Release| release_view(r))),
        None => None,
    }
}

/// The view of a list of assets or an error.
pub open spec fn asset_result(r: Result<Vec<Asset>, String>) -> Result<
    Seq<(Seq<char>, Seq<char>, u64, Seq<char>, bool)>,
    Seq<char>,
> {
    match r {
        Ok(v) => Ok(v@.map_values(|a: Asset| asset_view(a))),
        Err(e) => Err(e@),
    }
}

/// Whether an asset with this name and URL is offered.
pub fn wanted_asset(name: &str, url: &str) -> (r: bool)
    ensures
        r == asset_wanted(name@, url@),
{
    if name.is_empty() || url.is_empty() {
        return false;
    }
    let low = lowercase(name);
    ends_with_exec(&chars_of(low.as_str()), &chars_of(".zip"))
}

/// The assets offered by a release list reply, given its `message` field (if any) and its
/// releases (if it is a list).
pub fn fetch_assets(message: Option<String>, releases: Option<Vec<Release>>) -> (r: Result<Vec<Asset>, String>)
    ensures
        asset_result(r) == assets_reply(message_view(message), releases_view(releases)),
{
    if let Some(m) = &message {
        let mut s = String::from_str("GitHub: ");
        push_str(&mut s, m.as_str());
        return Err(s);
    }
    let rs = match &releases {
        Some(rs) => rs,
        None => return Err(String::from_str("unexpected GitHub response")),
    };
    let ghost rvs = rs@.map_values(|r: Release| release_view(r));
    let mut out: Vec<Asset> = Vec::new();
    let mut i: usize = 0;
    while i < rs.len()
        invariant
            i <= rs@.len(),
            rvs == rs@.map_values(|r: Release| release_view(r)),
            out@.map_values(|a: Asset| asset_view(a)) == all_assets(rvs.take(i as int)),
        decreases rs@.len() - i,
    {
        let rel = &rs[i];
        assert(rvs.take(i + 1).drop_last() =~= rvs.take(i as int));
        assert(rvs.take(i + 1).last() == release_view(*rel));
        let ghost avs = rel.assets@.map_values(|a: ReleaseAsset| asset_triple(a));
        let ghost base = out@.map_values(|a: Asset| asset_view(a));
        let mut j: usize = 0;
        while j < rel.assets.len()
            invariant
                j <= rel.assets@.len(),
                avs == rel.assets@.map_values(|a: ReleaseAsset| asset_triple(a)),
                out@.map_values(|a: Asset| asset_view(a)) == base + release_assets(
                    rel.tag@,
                    rel.prerelease,
                    avs.take(j as int),
                ),
            decreases rel.assets@.len() - j,
        {
            let a = &rel.assets[j];
            assert(avs.take(j + 1).drop_last() =~= avs.take(j as int));
            assert(avs.take(j + 1).last() == asset_triple(*a));
            if wanted_asset(a.name.as_str(), a.url.as_str()) {
                let ghost before = out@.map_values(|a: Asset| asset_view(a));
                let item = Asset {
                    name: a.name.clone(),
                    url: a.url.clone(),
                    size: a.size,
                    tag: rel.tag.clone(),
                    prerelease: rel.prerelease,
                };
                out.push(item);
                assert(out@.map_values(|a: Asset| asset_view(a)) =~= before.push(asset_view(item)));
            }
            j = j + 1;
        }
        assert(avs.take(rel.assets@.len() as int) =~= avs);
        i = i + 1;
    }
    assert(rvs.take(rs@.len() as int) =~= rvs);
    Ok(out)
}

/// Whether the member of `v` under `key` is the boolean `true` (a missing or non-boolean
/// member reads as `false`).
pub open spec fn flag_member(v: JsonView, key: Seq<char>) -> bool {
    match member(v, key) {
        Some(JsonView::Bool(b)) => b,
        _ => false,
    }
}

/// The unsigned integer held by the member of `v` under `key`, or 0.
pub open spec fn count_member(v: JsonView, key: Seq<char>) -> u64 {
    match member(v, key) {
        Some(JsonView::Number(Some(n))) => n,
        _ => 0,
    }
}

/// One asset as a release list describes it: its name, download URL and size.
pub open spec fn asset_of_json(a: JsonView) -> (Seq<char>, Seq<char>, u64) {
    (member_text_of(a, "name"@), member_text_of(a, "browser_download_url"@), count_member(a, "size"@))
}

/// The items of the `assets` array of a release, or none.
pub open spec fn asset_items(v: JsonView) -> Seq<JsonView> {
    match member(v, "assets"@) {
        Some(JsonView::Array(items)) => items,
        _ => Seq::empty(),
    }
}

/// One release as a release list describes it: its tag, whether it is a prerelease, and
/// its assets.
pub open spec fn release_of_json(v: JsonView) -> (Seq<char>, bool, Seq<(Seq<char>, Seq<char>, u64)>) {
    (
        member_text_of(v, "tag_name"@),
        flag_member(v, "prerelease"@),
        asset_items(v).map_values(|a: JsonView| asset_of_json(a)),
    )
}

/// The `message` of a reply, where it carries one as text.
pub open spec fn message_of(reply: JsonView) -> Option<Seq<char>> {
    match member(reply, "message"@) {
        Some(JsonView::Str(m)) => Some(m),
        _ => None,
    }
}

/// The releases of a reply, where it is a list.
pub open spec fn releases_of(reply: JsonView) -> Option<Seq<(Seq<char>, bool, Seq<(Seq<char>, Seq<char>, u64)>)>> {
    match reply {
        JsonView::Array(items) => Some(items.map_values(|v: JsonView| release_of_json(v))),
        _ => None,
    }
}

/// The text of the member of `v` under `key`, or the empty text.
fn member_text(v: &Json, key: &str) -> (r: String)
    ensures
        r@ == member_text_of(v@, key@),
{
    match find_member(v, key) {
        Some(Json::Str(t)) => t.clone(),
        _ => String::new(),
    }
}

/// Reads one release out of a release list.
fn release_of(v: &Json) -> (r: Release)
    ensures
        release_view(r) == release_of_json(v@),
{
    let tag = member_text(v, "tag_name");
    let prerelease = match find_member(v, "prerelease") {
        Some(Json::Bool(b)) => *b,
        _ => false,
    };
    let mut assets: Vec<ReleaseAsset> = Vec::new();
    if let Some(Json::Array(items)) = find_member(v, "assets") {
        let ghost vs = views_of(items@);
        proof {
            lemma_views_of(items@);
        }
        assert(asset_items(v@) == vs);
        let mut i: usize = 0;
        while i < items.len()
            invariant
                i <= items@.len(),
                vs == views_of(items@),
                vs.len() == items@.len(),
                forall|k: int| 0 <= k < items@.len() ==> #[trigger] vs[k] == json_view(items@[k]),
                asset_items(v@) == vs,
                assets@.map_values(|a: ReleaseAsset| asset_triple(a)) == vs.take(i as int).map_values(
                    |a: JsonView| asset_of_json(a),
                ),
            decreases items@.len() - i,
        {
            let a = &items[i];
            assert(vs[i as int] == a@);
            let size = match find_member(a, "size") {
                Some(Json::Number(Some(n))) => *n,
                _ => 0,
            };
            let item = ReleaseAsset {
                name: member_text(a, "name"),
                url: member_text(a, "browser_download_url"),
                size,
            };
            let ghost before = assets@.map_values(|a: ReleaseAsset| asset_triple(a));
            assets.push(item);
            assert(assets@.map_values(|a: ReleaseAsset| asset_triple(a)) =~= before.push(asset_triple(item)));
            assert(vs.take(i + 1).map_values(|a: JsonView| asset_of_json(a)) =~= vs.take(
                i as int,
            ).map_values(|a: JsonView| asset_of_json(a)).push(asset_of_json(vs[i as int])));
            i = i + 1;
        }
        assert(vs.take(items@.len() as int) =~= vs);
    } else {
        assert(asset_items(v@) =~= Seq::<JsonView>::empty());
        assert(assets@.map_values(|a: ReleaseAsset| asset_triple(a)) =~= Seq::<
            (Seq<char>, Seq<char>, u64),
        >::empty());
    }
    let r = Release { tag, prerelease, assets };
    assert(release_view(r) =~~= release_of_json(v@));
    r
}

/// The assets offered by a GitHub release list reply, from the reply read as JSON: what
/// `fetch_assets` makes of the reply's `message` and releases (a missing text, flag or size
/// reads as empty, false or 0).
pub fn assets_from_json(reply: &Json) -> (r: Result<Vec<Asset>, String>)
    ensures
        asset_result(r) == assets_reply(message_of(reply@), releases_of(reply@)),
{
    let message = match find_member(reply, "message") {
        Some(Json::Str(m)) => Some(m.clone()),
        _ => None,
    };
    assert(message_view(message) == message_of(reply@));
    let releases = match reply {
        Json::Array(items) => {
            let ghost vs = views_of(items@);
            proof {
                lemma_views_of(items@);
            }
            let mut rs: Vec<Release> = Vec::new();
            let mut i: usize = 0;
            while i < items.len()
                invariant
                    i <= items@.len(),
                    vs == views_of(items@),
                    vs.len() == items@.len(),
                    forall|k: int| 0 <= k < items@.len() ==> #[trigger] vs[k] == json_view(items@[k]),
                    rs@.map_values(|r: Release| release_view(r)) == vs.take(i as int).map_values(
                        |v: JsonView| release_of_json(v),
                    ),
                decreases items@.len() - i,
            {
                assert(vs[i as int] == items@[i as int]@);
                let rel = release_of(&items[i]);
                let ghost before = rs@.map_values(|r: Release| release_view(r));
                rs.push(rel);
                assert(rs@.map_values(|r: Release| release_view(r)) =~= before.push(release_view(rel)));
                assert(vs.take(i + 1).map_values(|v: JsonView| release_of_json(v)) =~= vs.take(
                    i as int,
                ).map_values(|v: JsonView| release_of_json(v)).push(release_of_json(vs[i as int])));
                i = i + 1;
            }
            assert(vs.take(items@.len() as int) =~= vs);
            Some(rs)
        },
        _ => None,
    };
    assert(releases_view(releases) == releases_of(reply@));
    fetch_assets(message, releases)
}

/// The assets offered by a GitHub release list reply, from the reply's body: a body that is
/// no JSON is refused with the parser's message after `bad GitHub response: `; otherwise
/// what `assets_from_json` makes of the parsed reply.
pub fn assets_from_response(body: &[u8]) -> (r: Result<Vec<Asset>, String>)
    ensures
        match json_of(body@) {
            None => match r {
                Ok(_) => false,
                Err(e) => exists|t: Seq<char>| e@ == "bad GitHub response: "@ + t,
            },
            Some(reply) => asset_result(r) == assets_reply(message_of(reply), releases_of(reply)),
        },
{
    match json_parse(body) {
        Ok(reply) => assets_from_json(&reply),
        Err(e) => {
            let mut s = String::from_str("bad GitHub response: ");
            push_str(&mut s, e.as_str());
            Err(s)
        },
    }
}

/// What extracting one entry of a release archive does.
#[derive(Debug)]
pub enum EntryAction {
    /// The entry's name would lead out of the game directory: it is left out.
    Skip,
    /// A directory is created at this path.
    MakeDir(String),
    /// A file is written at this path.
    WriteFile(String),
}

/// Decides what extracting an archive entry does, given the name that `zip` gives it once
/// it has checked that the name stays inside the target directory (`enclosed_name`: `None`
/// for a name that is absolute or climbs out with `..`) and whether the entry is a
/// directory: a refused name is skipped, and every other entry lands at its name under the
/// game directory.
pub fn entry_action(game_dir: &str, enclosed: Option<String>, is_dir: bool) -> (r: EntryAction)
    ensures
        match enclosed {
            None => r is Skip,
            Some(n) => if is_dir {
                r matches EntryAction::MakeDir(p) && p@ == joined_path(game_dir@, n@)
            } else {
                r matches EntryAction::WriteFile(p) && p@ == joined_path(game_dir@, n@)
            },
        },
{
    match enclosed {
        None => EntryAction::Skip,
        Some(n) => {
            let p = join_path(game_dir, n.as_str());
            if is_dir {
                EntryAction::MakeDir(p)
            } else {
                EntryAction::WriteFile(p)
            }
        },
    }
}

/// How many pauses of 100 ms a game that was asked to close is waited for (15 s).
pub const CLOSE_PAUSES: u32 = 150;

/// What the wait for a game that was asked to close does next.
#[derive(Debug)]
pub enum CloseWait {
    /// It still runs: pause and look again.
    Pause,
    /// It no longer runs.
    Closed,
    /// It still runs after the last pause: launching is refused with this message.
    StillRunning(String),
}

/// The message when a running game does not close.
pub open spec fn close_refusal() -> Seq<char> {
    "couldn't close the running game (it may be showing a save/quit prompt). Close it manually, then Launch with mods again."@
}

/// Decides the wait for a game that was asked to close, given whether it still runs and how
/// many pauses have passed: a closed game is done with, a running one is waited for until
/// `CLOSE_PAUSES` pauses have passed, and then launching is refused.
pub fn close_wait_step(alive: bool, waited: u32) -> (r: CloseWait)
    ensures
        !alive ==> r is Closed,
        alive && waited < CLOSE_PAUSES ==> r is Pause,
        alive && waited >= CLOSE_PAUSES ==> (r matches CloseWait::StillRunning(m) && m@ == close_refusal()),
{
    if !alive {
        CloseWait::Closed
    } else if waited < CLOSE_PAUSES {
        CloseWait::Pause
    } else {
        CloseWait::StillRunning(
            String::from_str(
                "couldn't close the running game (it may be showing a save/quit prompt). Close it manually, then Launch with mods again.",
            ),
        )
    }
}

/// Checks the first bytes of a downloaded or chosen file for the zip signature `PK`.
pub open spec fn zip_check(head: Seq<u8>) -> Result<(), Seq<char>> {
    if head.len() < 2 {
        Err("file is empty or unreadable"@)
    } else if head[0] != 0x50 || head[1] != 0x4b {
        Err("that isn't a .zip (got a non-archive — likely a wrong asset or a failed download)"@)
    } else {
        Ok(())
    }
}

/// Refuses a file whose first bytes are not the zip signature.
pub fn looks_like_zip(head: &[u8]) -> (r: Result<(), String>)
    ensures
        match r {
            Ok(()) => zip_check(head@) is Ok,
            Err(e) => zip_check(head@) == Err::<(), Seq<char>>(e@),
        },
{
    if head.len() < 2 {
        Err(String::from_str("file is empty or unreadable"))
    } else if head[0] != 0x50 || head[1] != 0x4b {
        Err(String::from_str("that isn't a .zip (got a non-archive — likely a wrong asset or a failed download)"))
    } else {
        Ok(())
    }
}

/// The message after extracting `count` files into a game directory.
pub open spec fn extract_message(count: nat, game_dir: Seq<char>) -> Seq<char> {
    "extracted "@ + decimal(count) + " files into "@ + game_dir
}

/// The message after extracting `count` files into a game directory.
pub fn extract_summary(count: u64, game_dir: &str) -> (r: String)
    ensures
        r@ == extract_message(count as nat, game_dir@),
{
    let mut s = String::from_str("extracted ");
    push_decimal(&mut s, count);
    push_str(&mut s, " files into ");
    push_str(&mut s, game_dir);
    s
}

/// The length of the word at the start of `s` (up to its first white space).
pub open spec fn word_len(s: Seq<char>) -> nat
    decreases s.len(),
{
    if s.len() == 0 || is_white(s[0]) {
        0
    } else {
        1 + word_len(s.drop_first())
    }
}

/// The second white-space-separated word of `s` (`split_whitespace().nth(1)`).
pub open spec fn second_word(s: Seq<char>) -> Option<Seq<char>> {
    let a = trim_start(s);
    let b = trim_start(a.skip(word_len(a) as int));
    if a.len() == 0 || b.len() == 0 {
        None
    } else {
        Some(b.take(word_len(b) as int))
    }
}

/// The number of extracted files an extraction message reports: its second word read as a
/// number, or 0.
pub open spec fn count_in(msg: Seq<char>) -> nat {
    match second_word(msg) {
        Some(w) => match parse_unsigned(w, 10, usize::MAX as nat) {
            Some(n) => n,
            None => 0,
        },
        None => 0,
    }
}

proof fn lemma_word_len(s: Seq<char>, k: int)
    requires
        0 <= k <= s.len(),
        forall|j: int| 0 <= j < k ==> !is_white(#[trigger] s[j]),
        k == s.len() || is_white(s[k]),
    ensures
        word_len(s) == k,
    decreases k,
{
    if k > 0 {
        assert forall|j: int| 0 <= j < k - 1 implies !is_white(#[trigger] s.drop_first()[j]) by {
            assert(s.drop_first()[j] == s[j + 1]);
        }
        lemma_word_len(s.drop_first(), k - 1);
    }
}

proof fn lemma_trim_start_skip(s: Seq<char>, k: int)
    requires
        0 <= k <= s.len(),
        forall|j: int| 0 <= j < k ==> is_white(#[trigger] s[j]),
    ensures
        trim_start(s) == trim_start(s.skip(k)),
    decreases k,
{
    if k > 0 {
        assert forall|j: int| 0 <= j < k - 1 implies is_white(#[trigger] s.drop_first()[j]) by {
            assert(s.drop_first()[j] == s[j + 1]);
        }
        lemma_trim_start_skip(s.drop_first(), k - 1);
        assert(s.drop_first().skip(k - 1) =~= s.skip(k));
    } else {
        assert(s.skip(0) =~= s);
    }
}

fn skip_white(v: &[char], from: usize) -> (r: usize)
    requires
        from <= v@.len(),
    ensures
        from <= r <= v@.len(),
        trim_start(v@.skip(from as int)) == v@.skip(r as int),
{
    let mut i = from;
    while i < v.len() && crate::text::is_white_exec(v[i])
        invariant
            from <= i <= v@.len(),
            forall|j: int| 0 <= j < i - from ==> is_white(#[trigger] v@.skip(from as int)[j]),
        decreases v@.len() - i,
    {
        assert(v@.skip(from as int)[i - from] == v@[i as int]);
        i = i + 1;
    }
    proof {
        lemma_trim_start_skip(v@.skip(from as int), i - from);
        assert(v@.skip(from as int).skip(i - from) =~= v@.skip(i as int));
        if i < v@.len() {
            assert(v@.skip(i as int)[0] == v@[i as int]);
        }
    }
    i
}

fn word_end(v: &[char], from: usize) -> (r: usize)
    requires
        from <= v@.len(),
    ensures
        from <= r <= v@.len(),
        word_len(v@.skip(from as int)) == r - from,
{
    let mut i = from;
    while i < v.len() && !crate::text::is_white_exec(v[i])
        invariant
            from <= i <= v@.len(),
            forall|j: int| 0 <= j < i - from ==> !is_white(#[trigger] v@.skip(from as int)[j]),
        decreases v@.len() - i,
    {
        assert(v@.skip(from as int)[i - from] == v@[i as int]);
        i = i + 1;
    }
    proof {
        if i < v@.len() {
            assert(v@.skip(from as int)[i - from] == v@[i as int]);
        }
        lemma_word_len(v@.skip(from as int), i - from);
    }
    i
}

/// Reads the number of extracted files back out of an extraction message.
pub fn extracted_count(msg: &str) -> (r: usize)
    ensures
        r == count_in(msg@),
{
    let v = chars_of(msg);
    let a = skip_white(&v, 0);
    assert(v@.skip(0) =~= v@);
    let a_end = word_end(&v, a);
    let b = skip_white(&v, a_end);
    let b_end = word_end(&v, b);
    proof {
        assert(v@.skip(a as int).skip(word_len(v@.skip(a as int)) as int) =~= v@.skip(a_end as int));
        assert(v@.skip(b as int).take(word_len(v@.skip(b as int)) as int) =~= v@.subrange(
            b as int,
            b_end as int,
        ));
    }
    if a == v.len() || b == v.len() {
        return 0;
    }
    match parse_unsigned_exec(&v[b..b_end], 10, usize::MAX as u64) {
        Some(n) => n as usize,
        None => 0,
    }
}

/// What a look at a game directory after extraction found, for `verify_install`.
#[derive(Debug, Clone, Copy)]
pub struct InstallProbe {
    pub core_dir: bool,
    pub winhttp: bool,
    pub run_script: bool,
    pub il2cpp_core: bool,
    pub interop: bool,
    pub melon_dir: bool,
    pub version_dll: bool,
    pub bootstrap: bool,
}

/// Whether an extracted loader is complete and usable, with the message for each case: a
/// BepInEx needs its core directory and a proxy (`winhttp.dll` or `run_bepinex.sh`) and must
/// be an IL2CPP build; a MelonLoader needs its directory and `version.dll` or its Linux
/// bootstrap.
pub open spec fn install_verdict(loader: Seq<char>, n: nat, p: InstallProbe) -> Result<Seq<char>, Seq<char>> {
    if is_bepinex(loader) {
        if !p.core_dir || !(p.winhttp || p.run_script) {
            Err(
                "That archive didn't contain a complete BepInEx (extracted only "@ + decimal(n)
                    + " files; BepInEx/core + winhttp.dll are missing). The download was likely incomplete or the wrong asset — re-try, or pick a full 'BepInEx-Unity.IL2CPP-win-x64' build."@,
            )
        } else if !(p.il2cpp_core || p.interop) {
            Err(
                "That's a Mono BepInEx build (BepInEx 5) — it will NOT load in an IL2CPP game (it loads but finds no Mono runtime and silently does nothing). Install a BepInEx 6 IL2CPP build instead: the asset name contains 'Unity.IL2CPP' (e.g. BepInEx-Unity.IL2CPP-win-x64-…). Remove this one first."@,
            )
        } else {
            Ok("BepInEx (IL2CPP) installed — extracted "@ + decimal(n) + " files"@)
        }
    } else if p.melon_dir && (p.version_dll || p.bootstrap) {
        Ok("MelonLoader installed — extracted "@ + decimal(n) + " files"@)
    } else {
        Err(
            "That archive didn't contain a complete MelonLoader (extracted only "@ + decimal(n)
                + " files; MelonLoader/ + version.dll are missing). The download was likely incomplete or the wrong asset — re-try, or pick a '…-win-x64' build."@,
        )
    }
}

/// Judges an extracted loader from what the game directory shows.
pub fn verify_install(loader: &str, extracted: usize, probe: InstallProbe) -> (r: Result<String, String>)
    ensures
        text_result(r) == install_verdict(loader@, extracted as nat, probe),
{
    let n = extracted as u64;
    if bepinex(loader) {
        if !probe.core_dir || !(probe.winhttp || probe.run_script) {
            let mut s = String::from_str("That archive didn't contain a complete BepInEx (extracted only ");
            push_decimal(&mut s, n);
            push_str(
                &mut s,
                " files; BepInEx/core + winhttp.dll are missing). The download was likely incomplete or the wrong asset — re-try, or pick a full 'BepInEx-Unity.IL2CPP-win-x64' build.",
            );
            Err(s)
        } else if !(probe.il2cpp_core || probe.interop) {
            Err(
                String::from_str(
                    "That's a Mono BepInEx build (BepInEx 5) — it will NOT load in an IL2CPP game (it loads but finds no Mono runtime and silently does nothing). Install a BepInEx 6 IL2CPP build instead: the asset name contains 'Unity.IL2CPP' (e.g. BepInEx-Unity.IL2CPP-win-x64-…). Remove this one first.",
                ),
            )
        } else {
            let mut s = String::from_str("BepInEx (IL2CPP) installed — extracted ");
            push_decimal(&mut s, n);
            push_str(&mut s, " files");
            Ok(s)
        }
    } else if probe.melon_dir && (probe.version_dll || probe.bootstrap) {
        let mut s = String::from_str("MelonLoader installed — extracted ");
        push_decimal(&mut s, n);
        push_str(&mut s, " files");
        Ok(s)
    } else {
        let mut s = String::from_str("That archive didn't contain a complete MelonLoader (extracted only ");
        push_decimal(&mut s, n);
        push_str(
            &mut s,
            " files; MelonLoader/ + version.dll are missing). The download was likely incomplete or the wrong asset — re-try, or pick a '…-win-x64' build.",
        );
        Err(s)
    }
}

/// Whether a process's maps text (lower-cased) shows a loaded mod loader.
pub open spec fn loader_mapped(maps: Seq<char>) -> bool {
    let l = unicode_lower(maps);
    contains(l, "doorstop"@) || contains(l, "bepinex"@) || contains(l, "melonloader"@) || contains(
        l,
        "il2cppinterop"@,
    )
}

/// Whether a mod loader is active in a process, from its maps text.
pub fn is_active(maps: &str) -> (r: bool)
    ensures
        r == loader_mapped(maps@),
{
    let l = chars_of(lowercase(maps).as_str());
    contains_exec(&l, &chars_of("doorstop")) || contains_exec(&l, &chars_of("bepinex"))
        || contains_exec(&l, &chars_of("melonloader")) || contains_exec(&l, &chars_of("il2cppinterop"))
}

/// How a game is started with a loader.
#[derive(Debug, Clone)]
pub struct LaunchPlan {
    pub program: String,
    pub args: Vec<String>,
    pub script: Option<String>,
    pub label: String,
    pub cwd: String,
}

/// The launch of a game with a loader: BepInEx runs its `run_bepinex.sh` (which must exist)
/// with bash; MelonLoader runs its `run_melonloader.sh` with bash when present, else the
/// executable itself; the game's own arguments follow; it starts in the given directory,
/// else the game directory.
pub open spec fn launch_plan_of(
    game_dir: Seq<char>,
    exe: Seq<char>,
    loader: Seq<char>,
    bepinex_script: bool,
    melon_script: bool,
    game_args: Seq<Seq<char>>,
    cwd: Option<Seq<char>>,
) -> Result<(Seq<char>, Seq<Seq<char>>, Option<Seq<char>>, Seq<char>, Seq<char>), Seq<char>> {
    let dir = match cwd {
        Some(c) => c,
        None => game_dir,
    };
    if is_bepinex(loader) {
        if !bepinex_script {
            Err("run_bepinex.sh not found — install a Linux BepInEx (IL2CPP) build first"@)
        } else {
            let s = joined_path(game_dir, "run_bepinex.sh"@);
            Ok(("bash"@, seq![s, exe] + game_args, Some(s), "BepInEx"@, dir))
        }
    } else if melon_script {
        let s = joined_path(game_dir, "run_melonloader.sh"@);
        Ok(("bash"@, seq![s, exe] + game_args, Some(s), "MelonLoader"@, dir))
    } else {
        Ok((exe, game_args, None, "MelonLoader"@, dir))
    }
}

/// A launch keeps the game's own arguments: a planned command line ends with them, in order,
/// after the run script and the executable when a script starts the game (through `bash`),
/// and alone when the executable is started directly; the game starts in the replaced
/// instance's directory, else in the game directory; BepInEx is never started without its
/// run script.
pub proof fn lemma_launch_keeps_game_args(
    game_dir: Seq<char>,
    exe: Seq<char>,
    loader: Seq<char>,
    bepinex_script: bool,
    melon_script: bool,
    game_args: Seq<Seq<char>>,
    cwd: Option<Seq<char>>,
)
    ensures
        launch_plan_of(game_dir, exe, loader, bepinex_script, melon_script, game_args, cwd) matches Ok(p)
            ==> {
            &&& p.1.len() >= game_args.len()
            &&& p.1.skip(p.1.len() - game_args.len()) == game_args
            &&& match p.2 {
                Some(script) => p.0 == "bash"@ && p.1.take(p.1.len() - game_args.len()) == seq![script, exe]
                    && (script == joined_path(game_dir, "run_bepinex.sh"@) || script == joined_path(
                    game_dir,
                    "run_melonloader.sh"@,
                )),
                None => p.0 == exe && p.1 == game_args,
            }
            &&& p.4 == (match cwd {
                Some(c) => c,
                None => game_dir,
            })
        },
        is_bepinex(loader) ==> (launch_plan_of(game_dir, exe, loader, bepinex_script, melon_script, game_args, cwd)
            is Ok <==> bepinex_script),
{
    let r = launch_plan_of(game_dir, exe, loader, bepinex_script, melon_script, game_args, cwd);
    if let Ok(p) = r {
        if let Some(script) = p.2 {
            let head = seq![script, exe];
            assert((head + game_args).skip(2) =~= game_args);
            assert((head + game_args).take(2) =~= head);
        } else {
            assert(p.1.skip(0) =~= p.1);
        }
    }
}

/// The view of a launch plan.
pub open spec fn plan_view(p: LaunchPlan) -> (Seq<char>, Seq<Seq<char>>, Option<Seq<char>>, Seq<char>, Seq<char>) {
    (
        p.program@,
        strings_view(p.args@),
        match p.script {
            Some(s) => Some(s@),
            None => None,
        },
        p.label@,
        p.cwd@,
    )
}

/// Plans the launch of a game with a loader, given which run scripts exist, the game's
/// arguments and the working directory of the instance it replaces.
pub fn launch(
    game_dir: &str,
    exe_path: &str,
    loader: &str,
    bepinex_script: bool,
    melon_script: bool,
    game_args: Vec<String>,
    cwd: Option<String>,
) -> (r: Result<LaunchPlan, String>)
    ensures
        match r {
            Ok(p) => launch_plan_of(
                game_dir@,
                exe_path@,
                loader@,
                bepinex_script,
                melon_script,
                strings_view(game_args@),
                match cwd {
                    Some(c) => Some(c@),
                    None => None,
                },
            ) == Ok::<(Seq<char>, Seq<Seq<char>>, Option<Seq<char>>, Seq<char>, Seq<char>), Seq<char>>(plan_view(p)),
            Err(e) => launch_plan_of(
                game_dir@,
                exe_path@,
                loader@,
                bepinex_script,
                melon_script,
                strings_view(game_args@),
                match cwd {
                    Some(c) => Some(c@),
                    None => None,
                },
            ) == Err::<(Seq<char>, Seq<Seq<char>>, Option<Seq<char>>, Seq<char>, Seq<char>), Seq<char>>(e@),
        },
{
    let dir = match cwd {
        Some(c) => c,
        None => String::from_str(game_dir),
    };
    let is_b = bepinex(loader);
    if is_b && !bepinex_script {
        return Err(String::from_str("run_bepinex.sh not found — install a Linux BepInEx (IL2CPP) build first"));
    }
    if is_b || melon_script {
        let s = if is_b {
            join_path(game_dir, "run_bepinex.sh")
        } else {
            join_path(game_dir, "run_melonloader.sh")
        };
        let mut args: Vec<String> = Vec::new();
        args.push(s.clone());
        args.push(String::from_str(exe_path));
        let ghost head = strings_view(args@);
        let n_args = game_args.len();
        let mut rest = game_args;
        let ghost all = rest@;
        let mut k: usize = 0;
        while rest.len() > 0
            invariant
                all == game_args@,
                all.len() == n_args,
                k + rest@.len() == all.len(),
                rest@ == all.skip(k as int),
                strings_view(args@) == head + strings_view(all.take(k as int)),
            decreases rest@.len(),
        {
            let a = rest.remove(0);
            let ghost before = strings_view(args@);
            args.push(a);
            proof {
                assert(all[k as int] == a);
                assert(all.take(k + 1) =~= all.take(k as int).push(a));
                assert(strings_view(all.take(k + 1)) =~= strings_view(all.take(k as int)).push(a@));
                assert(strings_view(args@) =~= before.push(a@));
                assert(all.skip(k + 1) =~= rest@);
            }
            k = k + 1;
        }
        assert(all.take(all.len() as int) =~= all);
        assert(head =~= seq![s@, exe_path@]);
        let label = if is_b {
            String::from_str("BepInEx")
        } else {
            String::from_str("MelonLoader")
        };
        Ok(LaunchPlan { program: String::from_str("bash"), args, script: Some(s), label, cwd: dir })
    } else {
        Ok(LaunchPlan {
            program: String::from_str(exe_path),
            args: game_args,
            script: None,
            label: String::from_str("MelonLoader"),
            cwd: dir,
        })
    }
}

/// The `steam_appid.txt` to write before a launch, when an app id is known.
pub fn appid_file(game_dir: &str, app_id: Option<String>) -> (r: Option<(String, String)>)
    ensures
        match app_id {
            Some(id) => if id@.len() > 0 {
                match r {
                    Some((path, content)) => path@ == joined_path(game_dir@, "steam_appid.txt"@)
                        && content@ == id@,
                    None => false,
                }
            } else {
                r is None
            },
            None => r is None,
        },
{
    match app_id {
        Some(id) => if id.as_str().is_empty() {
            None
        } else {
            Some((join_path(game_dir, "steam_appid.txt"), id))
        },
        None => None,
    }
}

/// What removing a loader removes from a game directory.
pub open spec fn removal_names(loader: Seq<char>) -> Seq<Seq<char>> {
    if is_bepinex(loader) {
        seq![
            "BepInEx"@,
            "run_bepinex.sh"@,
            "doorstop_config.ini"@,
            ".doorstop_version"@,
            "libdoorstop_x64.so"@,
            "libdoorstop_x86.so"@,
            "libdoorstop.so"@,
            "doorstop_libs"@,
            "winhttp.dll"@,
        ]
    } else {
        seq!["MelonLoader"@, "version.dll"@, "dobby.dll"@, "NOTICE.txt"@]
    }
}

/// The paths removing a loader removes from a game directory.
pub fn removal_targets(game_dir: &str, loader: &str) -> (r: Vec<String>)
    ensures
        r@.len() == removal_names(loader@).len(),
        forall|i: int|
            0 <= i < r@.len() ==> (#[trigger] r@[i])@ == joined_path(game_dir@, removal_names(loader@)[i]),
{
    let names: Vec<&str> = if bepinex(loader) {
        vec![
            "BepInEx",
            "run_bepinex.sh",
            "doorstop_config.ini",
            ".doorstop_version",
            "libdoorstop_x64.so",
            "libdoorstop_x86.so",
            "libdoorstop.so",
            "doorstop_libs",
            "winhttp.dll",
        ]
    } else {
        vec!["MelonLoader", "version.dll", "dobby.dll", "NOTICE.txt"]
    };
    assert(names@.map_values(|n: &str| n@) =~= removal_names(loader@));
    let mut out: Vec<String> = Vec::new();
    let mut i: usize = 0;
    while i < names.len()
        invariant
            i <= names@.len(),
            names@.map_values(|n: &str| n@) == removal_names(loader@),
            out@.len() == i,
            forall|k: int|
                0 <= k < i ==> (#[trigger] out@[k])@ == joined_path(game_dir@, removal_names(loader@)[k]),
        decreases names@.len() - i,
    {
        assert(names@.map_values(|n: &str| n@)[i as int] == names@[i as int]@);
        out.push(join_path(game_dir, names[i]));
        i = i + 1;
    }
    out
}

/// The message after removing `removed` loader items from a game directory.
pub fn removal_summary(removed: u64, game_dir: &str) -> (r: String)
    ensures
        r@ == "removed "@ + decimal(removed as nat) + " loader item(s) from "@ + game_dir@,
{
    let mut s = String::from_str("removed ");
    push_decimal(&mut s, removed);
    push_str(&mut s, " loader item(s) from ");
    push_str(&mut s, game_dir);
    s
}


proof fn lemma_word_len_prefix(a: Seq<char>, b: Seq<char>)
    requires
        forall|i: int| 0 <= i < a.len() ==> !is_white(#[trigger] a[i]),
        b.len() > 0 ==> is_white(b[0]),
    ensures
        word_len(a + b) == a.len(),
    decreases a.len(),
{
    if a.len() > 0 {
        assert((a + b).drop_first() =~= a.drop_first() + b);
        assert forall|i: int| 0 <= i < a.drop_first().len() implies !is_white(#[trigger] a.drop_first()[i]) by {
            assert(a.drop_first()[i] == a[i + 1]);
        }
        lemma_word_len_prefix(a.drop_first(), b);
    } else {
        assert(a + b =~= b);
    }
}

/// The number an extraction message reports is read back by `extracted_count`: what
/// `extract_summary` writes, `extracted_count` reads.
pub proof fn lemma_extract_count_roundtrip(n: nat, game_dir: Seq<char>)
    requires
        n <= usize::MAX,
    ensures
        count_in(extract_message(n, game_dir)) == n,
{
    reveal_strlit("extracted ");
    reveal_strlit(" files into ");
    let d = decimal(n);
    crate::num::lemma_decimal_chars(n);
    let head = "extracted"@;
    reveal_strlit("extracted");
    let tail = seq![' '] + d + " files into "@ + game_dir;
    let msg = extract_message(n, game_dir);
    assert(msg =~= head + tail);
    assert(trim_start(msg) == msg);
    assert forall|i: int| 0 <= i < head.len() implies !is_white(#[trigger] head[i]) by {}
    lemma_word_len_prefix(head, tail);
    assert(msg.skip(9) =~= tail);
    assert(tail.drop_first() =~= d + " files into "@ + game_dir);
    let rest = d + (" files into "@ + game_dir);
    assert(tail.drop_first() =~= rest);
    assert(trim_start(tail.drop_first()) == tail.drop_first());
    assert(trim_start(tail) == trim_start(tail.drop_first()));
    assert forall|i: int| 0 <= i < d.len() implies !is_white(#[trigger] d[i]) by {
        assert('0' <= d[i] <= '9');
    }
    lemma_word_len_prefix(d, " files into "@ + game_dir);
    assert(rest.take(d.len() as int) =~= d);
    crate::num::lemma_parse_decimal(n, usize::MAX as nat);
}

proof fn lemma_dll_names_hold(paths: Seq<Seq<char>>, j: int)
    requires
        0 <= j < paths.len(),
        is_dll(paths[j]),
        file_name(paths[j]) is Some,
    ensures
        dll_names(paths).contains(file_name(paths[j])->0),
    decreases paths.len(),
{
    let rest = paths.drop_last();
    if j < paths.len() - 1 {
        assert(rest[j] == paths[j]);
        lemma_dll_names_hold(rest, j);
        let k = choose|k: int| 0 <= k < dll_names(rest).len() && dll_names(rest)[k] == file_name(paths[j])->0;
        if is_dll(paths.last()) && file_name(paths.last()) is Some {
            assert(dll_names(paths)[k] == dll_names(rest)[k]);
        }
    } else {
        assert(dll_names(paths).last() == file_name(paths[j])->0);
    }
}

/// A plugin added to a loader's plugin directory is listed by `status` once it is there: a
/// look at the plugin directory that finds the copy's target lists the copy's name among the
/// plugins; and removing the plugin by that name removes that target.
pub proof fn lemma_added_plugin_is_listed(
    plugins_dir: Seq<char>,
    dll: Seq<char>,
    found: Seq<Seq<char>>,
    listed: Seq<String>,
)
    requires
        plugin_copy_of(plugins_dir, dll) is Ok,
        found.contains(plugin_copy_of(plugins_dir, dll)->Ok_0.1),
        sorted_names_of(dll_names(found), listed),
    ensures
        exists|i: int| 0 <= i < listed.len() && listed[i]@ == plugin_copy_of(plugins_dir, dll)->Ok_0.0,
        joined_path(plugins_dir, plugin_copy_of(plugins_dir, dll)->Ok_0.0) == plugin_copy_of(
            plugins_dir,
            dll,
        )->Ok_0.1,
{
    let n = file_name(dll)->0;
    let target = joined_path(plugins_dir, n);
    crate::path::lemma_file_name_shape(dll);
    crate::path::lemma_file_name_of_joined(plugins_dir, n);
    assert(is_dll(target));
    let j = choose|j: int| 0 <= j < found.len() && found[j] == target;
    lemma_dll_names_hold(found, j);
    let names = dll_names(found);
    let k = choose|k: int| 0 <= k < names.len() && names[k] == n;
    let mid = choose|mid: Seq<String>|
        strings_view(mid) == names && mid.len() == listed.len() && (forall|i: int, j: int|
            0 <= i < j < listed.len() ==> !lex_lt(listed[j]@, listed[i]@)) && same_per_key(
            mid,
            listed,
            |s: String| s@,
        );
    assert(strings_view(mid)[k] == mid[k]@);
    crate::order::lemma_same_per_key_keeps(mid, listed, |s: String| s@, k);
}

/// Removing a loader takes away what makes `status` call it installed: the first path it
/// removes is the loader's install directory, whose presence is what `status` reads as
/// installed.
pub proof fn lemma_removal_takes_the_install_dir(game_dir: Seq<char>, loader: Seq<char>)
    ensures
        removal_names(loader).len() > 0,
        joined_path(game_dir, removal_names(loader)[0]) == layout_of(game_dir, loader).0,
{
}

} // verus!
