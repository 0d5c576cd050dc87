//! 3MF packages: reading entries, thumbnails, and the resolution of build items into
//! placed geometry across the model files of the package.
use crate::paths::has_parent_component;
use crate::text::{chars_of, string_from_chars};
use crate::threemf::attrs::copy_bytes;
use crate::threemf::colors::{
    extruder_color, parse_filament_colors, spec_extruder_color, spec_filament_colors, Rgb,
};
use crate::threemf::meta::{
    color_metas_v, parse_object_color_meta, spec_object_color_meta, ColorMetaV, ObjectColorMeta,
};
use crate::threemf::model::{
    build_item_v, build_items_v, component_v, components_v, concat_str, objects_v,
    opt_chars_view, parse_build_items, parse_model_xml, spec_parse_build_items,
    spec_parse_model_xml, tokens_v, BuildItemV, ComponentRef, ComponentV, ObjectData, ObjectV,
};
use crate::zipio::{zip_entry, zip_is_archive, zip_read_entry, ZipFailure};
use std::collections::HashMap;
use vstd::prelude::*;

verus! {

broadcast use vstd::std_specs::hash::group_hash_axioms;

pub open spec fn backslashes_to_slashes(cs: Seq<char>) -> Seq<char> {
    cs.map_values(|c: char| if c == '\\' {
        '/'
    } else {
        c
    })
}

pub open spec fn trim_leading_slashes(cs: Seq<char>) -> Seq<char>
    decreases cs.len(),
{
    if cs.len() > 0 && cs[0] == '/' {
        trim_leading_slashes(cs.drop_first())
    } else {
        cs
    }
}

/// A zip entry name as referenced from a model: backslashes become `/`, leading `/` are
/// dropped, and a name with a `..` component is refused (the empty name).
pub open spec fn spec_normalize_zip_path(cs: Seq<char>) -> Seq<char> {
    let p = trim_leading_slashes(backslashes_to_slashes(cs));
    if has_parent_component(p) {
        Seq::empty()
    } else {
        p
    }
}

fn normalize_chars(cs: &[char]) -> (r: Vec<char>)
    ensures
        r@ == spec_normalize_zip_path(cs@),
{
    let ghost conv = backslashes_to_slashes(cs@);
    let mut start: usize = 0;
    assert(conv.skip(0) =~= conv);
    while start < cs.len() && (cs[start] == '/' || cs[start] == '\\')
        invariant
            start <= cs@.len(),
            conv == backslashes_to_slashes(cs@),
            trim_leading_slashes(conv) == trim_leading_slashes(conv.skip(start as int)),
        decreases cs@.len() - start,
    {
        assert(conv.skip(start as int).drop_first() =~= conv.skip(start + 1));
        start = start + 1;
    }
    let mut p: Vec<char> = Vec::new();
    let mut i = start;
    while i < cs.len()
        invariant
            start <= i <= cs@.len(),
            conv == backslashes_to_slashes(cs@),
            p@ == conv.subrange(start as int, i as int),
        decreases cs@.len() - i,
    {
        let c = if cs[i] == '\\' {
            '/'
        } else {
            cs[i]
        };
        p.push(c);
        i = i + 1;
        assert(p@ =~= conv.subrange(start as int, i as int));
    }
    assert(p@ =~= conv.skip(start as int));
    assert(trim_leading_slashes(conv) == p@);
    if crate::paths::has_parent_component_exec(&p) {
        Vec::new()
    } else {
        p
    }
}

proof fn lemma_trim_leading_slashes(cs: Seq<char>)
    ensures
        exists|k: int| 0 <= k <= cs.len() && trim_leading_slashes(cs) == #[trigger] cs.skip(k),
        trim_leading_slashes(cs).len() > 0 ==> trim_leading_slashes(cs)[0] != '/',
    decreases cs.len(),
{
    if cs.len() > 0 && cs[0] == '/' {
        lemma_trim_leading_slashes(cs.drop_first());
        let k = choose|k: int| 0 <= k <= cs.drop_first().len() && trim_leading_slashes(cs.drop_first()) == #[trigger] cs.drop_first().skip(k);
        assert(cs.drop_first().skip(k) =~= cs.skip(k + 1));
    } else {
        assert(cs.skip(0) =~= cs);
    }
}

/// Law of zip entry names taken from a model: a normalized name holds no `..` component,
/// no backslash, and does not start with `/`.
pub proof fn lemma_normalized_zip_path_is_safe(cs: Seq<char>)
    ensures
        !has_parent_component(spec_normalize_zip_path(cs)),
        spec_normalize_zip_path(cs).len() > 0 ==> spec_normalize_zip_path(cs)[0] != '/',
        forall|i: int| 0 <= i < spec_normalize_zip_path(cs).len() ==> #[trigger] spec_normalize_zip_path(cs)[i] != '\\',
{
    let conv = backslashes_to_slashes(cs);
    lemma_trim_leading_slashes(conv);
    let k = choose|k: int| 0 <= k <= conv.len() && trim_leading_slashes(conv) == #[trigger] conv.skip(k);
    let p = trim_leading_slashes(conv);
    assert forall|i: int| 0 <= i < p.len() implies #[trigger] p[i] != '\\' by {
        assert(p[i] == conv[i + k]);
    }
    if has_parent_component(p) {
        assert(spec_normalize_zip_path(cs) =~= Seq::<char>::empty());
        assert(!has_parent_component(Seq::<char>::empty()));
    }
}

/// Normalize a zip entry name taken from a model (see [`spec_normalize_zip_path`]).
pub fn normalize_zip_path(path: &str) -> (r: String)
    ensures
        r@ == spec_normalize_zip_path(path@),
{
    string_from_chars(&normalize_chars(&chars_of(path)))
}



/// Why a 3MF package cannot be turned into a mesh.
#[derive(Debug)]
pub enum ThreeMfError {
    /// The file is not a zip archive; the message says why.
    NotAnArchive(String),
    /// A required entry is missing; the message names it.
    MissingEntry(String),
    /// An entry could not be decompressed.
    Unreadable(String),
    /// A model file is not readable XML.
    Xml(String),
    /// The root model places nothing.
    NoBuildItems,
    /// Components nest deeper than 20 levels.
    TooDeep,
}

/// The message of a package error.
pub open spec fn package_error_message(e: PackageError) -> Seq<char> {
    match e {
        PackageError::NotAnArchive(m) => m,
        PackageError::MissingEntry(m) => m,
        PackageError::Unreadable(m) => m,
        PackageError::Xml(m) => m,
        PackageError::NoBuildItems => "No build items found in 3MF file"@,
        PackageError::TooDeep => "3MF component recursion too deep"@,
    }
}

impl ThreeMfError {
    /// The error message.
    pub fn message(&self) -> (m: String)
        ensures
            m@ == package_error_message(error_v(*self)),
    {
        match self {
            ThreeMfError::NotAnArchive(m) => m.clone(),
            ThreeMfError::MissingEntry(m) => m.clone(),
            ThreeMfError::Unreadable(m) => m.clone(),
            ThreeMfError::Xml(m) => m.clone(),
            ThreeMfError::NoBuildItems => string_from_chars(&chars_of("No build items found in 3MF file")),
            ThreeMfError::TooDeep => string_from_chars(&chars_of("3MF component recursion too deep")),
        }
    }
}

/// A package error as plain values.
pub enum PackageError {
    NotAnArchive(Seq<char>),
    MissingEntry(Seq<char>),
    Unreadable(Seq<char>),
    Xml(Seq<char>),
    NoBuildItems,
    TooDeep,
}

pub open spec fn error_v(e: ThreeMfError) -> PackageError {
    match e {
        ThreeMfError::NotAnArchive(m) => PackageError::NotAnArchive(m@),
        ThreeMfError::MissingEntry(m) => PackageError::MissingEntry(m@),
        ThreeMfError::Unreadable(m) => PackageError::Unreadable(m@),
        ThreeMfError::Xml(m) => PackageError::Xml(m@),
        ThreeMfError::NoBuildItems => PackageError::NoBuildItems,
        ThreeMfError::TooDeep => PackageError::TooDeep,
    }
}

/// What reading entry `name` of the package gives: its contents, or the error with the
/// message a reader of the package shows.
pub open spec fn spec_read_entry(data: Seq<u8>, name: Seq<char>) -> Result<Seq<u8>, PackageError> {
    match zip_entry(data, name) {
        Ok(b) => Ok(b),
        Err((ZipFailure::NotAnArchive, m)) => Err(PackageError::NotAnArchive("Not a valid zip/3mf: "@ + m)),
        Err((ZipFailure::MissingEntry, m)) => Err(
            PackageError::MissingEntry("Zip entry '"@ + name + "' not found: "@ + m),
        ),
        Err((ZipFailure::Unreadable, m)) => Err(PackageError::Unreadable(m)),
    }
}

/// Read an entry of the package, with the messages a reader of the package shows (see
/// [`spec_read_entry`]).
pub fn read_zip_entry(data: &[u8], name: &str) -> (r: Result<Vec<u8>, ThreeMfError>)
    ensures
        match r {
            Ok(v) => spec_read_entry(data@, name@) == Ok::<Seq<u8>, PackageError>(v@),
            Err(e) => spec_read_entry(data@, name@) == Err::<Seq<u8>, PackageError>(error_v(e)),
        },
        match r {
            Ok(v) => zip_is_archive(data@) && zip_entry(data@, name@) == Ok::<
                Seq<u8>,
                (ZipFailure, Seq<char>),
            >(v@),
            Err(ThreeMfError::NotAnArchive(_)) => !zip_is_archive(data@),
            Err(ThreeMfError::MissingEntry(_)) => zip_is_archive(data@) && zip_entry(
                data@,
                name@,
            ) matches Err((ZipFailure::MissingEntry, _)),
            Err(ThreeMfError::Unreadable(_)) => zip_is_archive(data@) && zip_entry(
                data@,
                name@,
            ) matches Err((ZipFailure::Unreadable, _)),
            Err(_) => false,
        },
{
    match zip_read_entry(data, name) {
        Ok(v) => Ok(v),
        Err(e) => match e.failure {
            ZipFailure::NotAnArchive => Err(
                ThreeMfError::NotAnArchive(concat_str("Not a valid zip/3mf: ", e.message.as_str())),
            ),
            ZipFailure::MissingEntry => {
                let a = concat_str("Zip entry '", name);
                let b = concat_str(a.as_str(), "' not found: ");
                Err(ThreeMfError::MissingEntry(concat_str(b.as_str(), e.message.as_str())))
            },
            ZipFailure::Unreadable => Err(ThreeMfError::Unreadable(e.message)),
        },
    }
}

/// The thumbnail images a package may hold, in the order they are tried.
pub open spec fn thumbnail_candidates() -> Seq<Seq<char>> {
    seq!["Metadata/plate_1.png"@, "Metadata/plate_1_small.png"@, "Metadata/top_1.png"@]
}

/// The first candidate that reads out of the archive, from the `k`-th on.
pub open spec fn first_thumbnail(data: Seq<u8>, k: nat) -> Option<Seq<u8>>
    decreases 3 - k,
{
    if k >= 3 {
        None
    } else {
        match zip_entry(data, thumbnail_candidates()[k as int]) {
            Ok(b) => Some(b),
            Err(_) => first_thumbnail(data, k + 1),
        }
    }
}

/// Why a package has no thumbnail.
#[derive(Debug, Clone, PartialEq, Eq)]
pub enum ThumbnailError {
    /// The bytes are not a zip archive: `Not a valid zip/3mf: ` and the `zip` crate's
    /// message.
    NotAnArchive(String),
    NoThumbnail,
}

/// The thumbnail PNG of a package: `Metadata/plate_1.png`, else
/// `Metadata/plate_1_small.png`, else `Metadata/top_1.png`.
pub fn extract_thumbnail(data: &[u8]) -> (r: Result<Vec<u8>, ThumbnailError>)
    ensures
        match r {
            Ok(b) => zip_is_archive(data@) && first_thumbnail(data@, 0) == Some(b@),
            Err(ThumbnailError::NotAnArchive(m)) => !zip_is_archive(data@) && (zip_entry(
                data@,
                thumbnail_candidates()[0],
            ) matches Err((_, inner)) && m@ == "Not a valid zip/3mf: "@ + inner),
            Err(ThumbnailError::NoThumbnail) => zip_is_archive(data@) && first_thumbnail(data@, 0)
                is None,
        },
{
    let mut names: Vec<&str> = Vec::new();
    names.push("Metadata/plate_1.png");
    names.push("Metadata/plate_1_small.png");
    names.push("Metadata/top_1.png");
    assert(names@.map_values(|n: &str| n@) =~= thumbnail_candidates());
    let mut k: usize = 0;
    while k < 3
        invariant
            k <= 3,
            names@.len() == 3,
            forall|j: int| 0 <= j < 3 ==> #[trigger] names@[j]@ == thumbnail_candidates()[j],
            k > 0 ==> zip_is_archive(data@),
            first_thumbnail(data@, 0) == first_thumbnail(data@, k as nat),
        decreases 3 - k,
    {
        match zip_read_entry(data, names[k]) {
            Ok(b) => {
                return Ok(b);
            },
            Err(e) => {
                if k == 0 && e.failure == ZipFailure::NotAnArchive {
                    let m = concat_str("Not a valid zip/3mf: ", e.message.as_str());
                    return Err(ThumbnailError::NotAnArchive(m));
                }
            },
        }
        k = k + 1;
    }
    Err(ThumbnailError::NoThumbnail)
}

/// A model file of the package and its objects; the root model has the empty key.
#[derive(Debug)]
pub struct ModelFile {
    pub key: Vec<char>,
    pub objects: HashMap<u32, ObjectData>,
}

/// One placed copy of an object's geometry: which file and object holds it, the chain of
/// transforms from the build item down to it (each as 12 number texts, or none for the
/// identity; applied innermost first), and its colour.
#[derive(Debug)]
pub struct Placement {
    pub file: usize,
    pub object_id: u32,
    pub transforms: Vec<Vec<Vec<u8>>>,
    pub color: Rgb,
}

/// The build items of a package resolved into placements of geometry.
#[derive(Debug)]
pub struct Resolved {
    pub files: Vec<ModelFile>,
    pub placements: Vec<Placement>,
}

/// Every placement names a file of `files` and, in it, an object with inline geometry;
/// its transform chain runs from the build item (at least one transform, at most 22).
pub open spec fn placements_ok(files: Seq<ModelFile>, ps: Seq<Placement>) -> bool {
    forall|i: int|
        0 <= i < ps.len() ==> {
            let p = #[trigger] ps[i];
            &&& p.file < files.len()
            &&& files[p.file as int].objects@.contains_key(p.object_id)
            &&& files[p.file as int].objects@[p.object_id] is MeshData
            &&& 1 <= p.transforms@.len() <= 22
        }
}

/// A placement as plain values: the key of its model file instead of the file's position.
pub struct PlacementV {
    pub key: Seq<char>,
    pub object_id: u32,
    pub transforms: Seq<Seq<Seq<u8>>>,
    pub color: Rgb,
}

pub open spec fn chain_v(c: Seq<Vec<Vec<u8>>>) -> Seq<Seq<Seq<u8>>> {
    c.map_values(|t: Vec<Vec<u8>>| tokens_v(t@))
}

pub open spec fn placement_v(files: Seq<ModelFile>, p: Placement) -> PlacementV {
    PlacementV {
        key: files[p.file as int].key@,
        object_id: p.object_id,
        transforms: chain_v(p.transforms@),
        color: p.color,
    }
}

pub open spec fn placements_v(files: Seq<ModelFile>, ps: Seq<Placement>) -> Seq<PlacementV> {
    ps.map_values(|p: Placement| placement_v(files, p))
}

/// What a package resolution works from: the package bytes, the objects of the root
/// model, the colour metadata and the filament colours.
pub struct PackageV {
    pub data: Seq<u8>,
    pub root: Map<u32, ObjectV>,
    pub metas: Map<u32, ColorMetaV>,
    pub filament: Seq<Rgb>,
}

/// The objects of the model file with key `key`: the root model for the empty key,
/// otherwise the entry of that name read out of the package and parsed.
pub open spec fn file_objects(ctx: PackageV, key: Seq<char>) -> Result<Map<u32, ObjectV>, PackageError> {
    if key.len() == 0 {
        Ok(ctx.root)
    } else {
        match spec_read_entry(ctx.data, key) {
            Err(e) => Err(e),
            Ok(x) => match spec_parse_model_xml(x) {
                Ok(o) => Ok(o),
                Err(m) => Err(PackageError::Xml(m)),
            },
        }
    }
}

/// The extruder of part `part` of build object `root` in the colour metadata.
pub open spec fn spec_part_extruder(metas: Map<u32, ColorMetaV>, root: u32, part: u32) -> Option<u32> {
    if metas.contains_key(root) && metas[root].part_extruders.contains_key(part) {
        Some(metas[root].part_extruders[part])
    } else {
        None
    }
}

/// The model file whose objects a component names (its key and objects): the file of its
/// `path`, normalized, or else the same file.
pub open spec fn comp_target(ctx: PackageV, objs: Map<u32, ObjectV>, key: Seq<char>, c: ComponentV) -> Result<
    (Seq<char>, Map<u32, ObjectV>),
    PackageError,
> {
    match c.path {
        None => Ok((key, objs)),
        Some(p) => match file_objects(ctx, spec_normalize_zip_path(p)) {
            Ok(o) => Ok((spec_normalize_zip_path(p), o)),
            Err(e) => Err(e),
        },
    }
}

/// The colour of a component: its part's extruder colour (by the build item's object id
/// `root`), or the inherited `color`.
pub open spec fn comp_color(ctx: PackageV, root: u32, c: ComponentV, color: Rgb) -> Rgb {
    spec_extruder_color(ctx.filament, spec_part_extruder(ctx.metas, root, c.object_id), color)
}

/// The placements of object `obj` of the model file `key` (whose objects are `objs`),
/// reached through the transform chain `chain` at nesting depth `depth`, with colour
/// `color` inherited: geometry is placed as it is; components are resolved in order.
pub open spec fn resolve_obj(
    ctx: PackageV,
    objs: Map<u32, ObjectV>,
    key: Seq<char>,
    obj: u32,
    chain: Seq<Seq<Seq<u8>>>,
    depth: nat,
    root: u32,
    color: Rgb,
) -> Result<Seq<PlacementV>, PackageError>
    decreases 21 - depth, 1nat, 0nat,
{
    if depth > 20 {
        Err(PackageError::TooDeep)
    } else if !objs.contains_key(obj) {
        Ok(Seq::empty())
    } else {
        match objs[obj] {
            ObjectV::Mesh { .. } => Ok(
                seq![PlacementV { key, object_id: obj, transforms: chain, color }],
            ),
            ObjectV::Components(cs) => resolve_comps(
                ctx,
                objs,
                key,
                cs,
                cs.len(),
                chain,
                depth,
                root,
                color,
            ),
        }
    }
}

/// The placements of the first `n` components `cs` of an object of the model file `key`.
/// Each component adds its transform to the chain, takes its part colour (by the build
/// item's object id) or inherits `color`, and names its object in the file of its `path`
/// (normalized) or in the same file.
pub open spec fn resolve_comps(
    ctx: PackageV,
    objs: Map<u32, ObjectV>,
    key: Seq<char>,
    cs: Seq<ComponentV>,
    n: nat,
    chain: Seq<Seq<Seq<u8>>>,
    depth: nat,
    root: u32,
    color: Rgb,
) -> Result<Seq<PlacementV>, PackageError>
    decreases 21 - depth, 0nat, n,
{
    if depth > 20 {
        Err(PackageError::TooDeep)
    } else if n == 0 || n > cs.len() {
        Ok(Seq::empty())
    } else {
        match resolve_comps(ctx, objs, key, cs, (n - 1) as nat, chain, depth, root, color) {
            Err(e) => Err(e),
            Ok(ps) => {
                let c = cs[n - 1];
                match comp_target(ctx, objs, key, c) {
                    Err(e) => Err(e),
                    Ok((tk, to)) => match resolve_obj(
                        ctx,
                        to,
                        tk,
                        c.object_id,
                        chain.push(c.transform),
                        depth + 1,
                        root,
                        comp_color(ctx, root, c, color),
                    ) {
                        Err(e) => Err(e),
                        Ok(qs) => Ok(ps + qs),
                    },
                }
            },
        }
    }
}

/// The colour of a build item's object: its default extruder's filament colour, or the
/// fallback colour.
pub open spec fn spec_item_color(ctx: PackageV, obj: u32) -> Rgb {
    spec_extruder_color(
        ctx.filament,
        if ctx.metas.contains_key(obj) {
            ctx.metas[obj].default_extruder
        } else {
            None
        },
        Rgb::Default,
    )
}

/// The placements of the first `n` build items, in order.
pub open spec fn resolve_items(ctx: PackageV, items: Seq<BuildItemV>, n: nat) -> Result<
    Seq<PlacementV>,
    PackageError,
>
    decreases n,
{
    if n == 0 || n > items.len() {
        Ok(Seq::empty())
    } else {
        match resolve_items(ctx, items, (n - 1) as nat) {
            Err(e) => Err(e),
            Ok(ps) => {
                let it = items[n - 1];
                match resolve_obj(
                    ctx,
                    ctx.root,
                    Seq::empty(),
                    it.object_id,
                    seq![it.transform],
                    0,
                    it.object_id,
                    spec_item_color(ctx, it.object_id),
                ) {
                    Err(e) => Err(e),
                    Ok(qs) => Ok(ps + qs),
                }
            },
        }
    }
}

/// The filament colours a package declares (none without project settings).
pub open spec fn package_filament(data: Seq<u8>) -> Seq<Rgb> {
    match zip_entry(data, "Metadata/project_settings.config"@) {
        Ok(d) => spec_filament_colors(d),
        Err(_) => Seq::empty(),
    }
}

/// The colour metadata a package declares (none without model settings).
pub open spec fn package_metas(data: Seq<u8>) -> Map<u32, ColorMetaV> {
    match zip_entry(data, "Metadata/model_settings.config"@) {
        Ok(d) => spec_object_color_meta(d),
        Err(_) => Map::empty(),
    }
}

/// What reading a 3MF package gives: the placements of its build items, or why it
/// cannot be read.
pub open spec fn spec_read_3mf(data: Seq<u8>) -> Result<Seq<PlacementV>, PackageError> {
    match spec_read_entry(data, "3D/3dmodel.model"@) {
        Err(e) => Err(e),
        Ok(x) => match spec_parse_model_xml(x) {
            Err(m) => Err(PackageError::Xml(m)),
            Ok(root) => match spec_parse_build_items(x) {
                Err(m) => Err(PackageError::Xml(m)),
                Ok(items) => if items.len() == 0 {
                    Err(PackageError::NoBuildItems)
                } else {
                    resolve_items(package_context(data), items, items.len())
                },
            },
        },
    }
}

/// Every model file held is the file its key names, and the first one is the root model.
pub open spec fn files_ok(ctx: PackageV, files: Seq<ModelFile>) -> bool {
    &&& files.len() >= 1
    &&& files[0].key@ == Seq::<char>::empty()
    &&& forall|k: int|
        0 <= k < files.len() ==> file_objects(ctx, #[trigger] files[k].key@) == Ok::<
            Map<u32, ObjectV>,
            PackageError,
        >(objects_v(files[k].objects@))
}

proof fn lemma_placements_v_stable(f1: Seq<ModelFile>, f2: Seq<ModelFile>, ps: Seq<Placement>)
    requires
        f1.len() <= f2.len(),
        forall|k: int| 0 <= k < f1.len() ==> #[trigger] f2[k] == f1[k],
        forall|i: int| 0 <= i < ps.len() ==> (#[trigger] ps[i]).file < f1.len(),
    ensures
        placements_v(f2, ps) == placements_v(f1, ps),
{
    assert(placements_v(f2, ps) =~= placements_v(f1, ps));
}

fn copy_token_list(t: &Vec<Vec<u8>>) -> (r: Vec<Vec<u8>>)
    ensures
        tokens_v(r@) == tokens_v(t@),
{
    let mut r: Vec<Vec<u8>> = Vec::new();
    let mut i: usize = 0;
    while i < t.len()
        invariant
            i <= t@.len(),
            tokens_v(r@) == tokens_v(t@).take(i as int),
        decreases t@.len() - i,
    {
        let ghost before = tokens_v(r@);
        let b = copy_bytes(&t[i]);
        r.push(b);
        assert(tokens_v(r@) =~= before.push(t@[i as int]@));
        i = i + 1;
        assert(tokens_v(r@) =~= tokens_v(t@).take(i as int));
    }
    assert(tokens_v(t@).take(i as int) =~= tokens_v(t@));
    r
}

fn copy_chain(c: &Vec<Vec<Vec<u8>>>) -> (r: Vec<Vec<Vec<u8>>>)
    ensures
        r@.len() == c@.len(),
        forall|i: int| 0 <= i < c@.len() ==> tokens_v(#[trigger] r@[i]@) == tokens_v(c@[i]@),
        chain_v(r@) == chain_v(c@),
{
    let mut r: Vec<Vec<Vec<u8>>> = Vec::new();
    let mut i: usize = 0;
    while i < c.len()
        invariant
            i <= c@.len(),
            r@.len() == i,
            forall|j: int| 0 <= j < i ==> tokens_v(#[trigger] r@[j]@) == tokens_v(c@[j]@),
        decreases c@.len() - i,
    {
        r.push(copy_token_list(&c[i]));
        i = i + 1;
    }
    assert(chain_v(r@) =~= chain_v(c@));
    r
}

fn copy_chars(v: &Vec<char>) -> (r: Vec<char>)
    ensures
        r@ == v@,
{
    let mut r: Vec<char> = Vec::new();
    let mut i: usize = 0;
    while i < v.len()
        invariant
            i <= v@.len(),
            r@ == v@.take(i as int),
        decreases v@.len() - i,
    {
        r.push(v[i]);
        i = i + 1;
        assert(r@ =~= v@.take(i as int));
    }
    assert(v@.take(i as int) =~= v@);
    r
}

fn copy_components(cs: &Vec<ComponentRef>) -> (r: Vec<ComponentRef>)
    ensures
        components_v(r@) == components_v(cs@),
{
    let mut r: Vec<ComponentRef> = Vec::new();
    let mut i: usize = 0;
    while i < cs.len()
        invariant
            i <= cs@.len(),
            components_v(r@) == components_v(cs@).take(i as int),
        decreases cs@.len() - i,
    {
        let c = &cs[i];
        let path = match &c.path {
            Some(p) => Some(copy_chars(p)),
            None => None,
        };
        let n = ComponentRef { path, object_id: c.object_id, transform: copy_token_list(&c.transform) };
        assert(component_v(n) == component_v(*c));
        let ghost before = components_v(r@);
        r.push(n);
        assert(components_v(r@) =~= before.push(component_v(cs@[i as int])));
        i = i + 1;
        assert(components_v(r@) =~= components_v(cs@).take(i as int));
    }
    assert(components_v(cs@).take(i as int) =~= components_v(cs@));
    r
}

fn find_file(files: &Vec<ModelFile>, key: &[char]) -> (r: Option<usize>)
    ensures
        r matches Some(i) ==> i < files@.len() && files@[i as int].key@ == key@,
        r is None ==> forall|i: int| 0 <= i < files@.len() ==> files@[i].key@ != key@,
{
    let mut i: usize = 0;
    while i < files.len()
        invariant
            i <= files@.len(),
            forall|j: int| 0 <= j < i ==> files@[j].key@ != key@,
        decreases files@.len() - i,
    {
        if crate::text::chars_eq(&files[i].key, key) {
            return Some(i);
        }
        i = i + 1;
    }
    None
}

/// The extruder assigned to part `part` of object `object` in the colour metadata.
fn part_extruder(metas: &HashMap<u32, ObjectColorMeta>, object: u32, part: u32) -> (r: Option<u32>)
    ensures
        r == (if metas@.contains_key(object) && metas@[object].part_extruders@.contains_key(part) {
            Some(metas@[object].part_extruders@[part])
        } else {
            None::<u32>
        }),
{
    match metas.get(&object) {
        Some(m) => match m.part_extruders.get(&part) {
            Some(e) => Some(*e),
            None => None,
        },
        None => None,
    }
}

proof fn lemma_comps_error_stays(
    ctx: PackageV,
    objs: Map<u32, ObjectV>,
    key: Seq<char>,
    cs: Seq<ComponentV>,
    m: nat,
    n: nat,
    chain: Seq<Seq<Seq<u8>>>,
    depth: nat,
    root: u32,
    color: Rgb,
)
    requires
        m <= n <= cs.len(),
        resolve_comps(ctx, objs, key, cs, m, chain, depth, root, color) is Err,
    ensures
        resolve_comps(ctx, objs, key, cs, n, chain, depth, root, color) == resolve_comps(
            ctx,
            objs,
            key,
            cs,
            m,
            chain,
            depth,
            root,
            color,
        ),
    decreases n - m,
{
    if m < n {
        lemma_comps_error_stays(ctx, objs, key, cs, m, (n - 1) as nat, chain, depth, root, color);
    }
}

proof fn lemma_items_error_stays(ctx: PackageV, items: Seq<BuildItemV>, m: nat, n: nat)
    requires
        m <= n <= items.len(),
        resolve_items(ctx, items, m) is Err,
    ensures
        resolve_items(ctx, items, n) == resolve_items(ctx, items, m),
    decreases n - m,
{
    if m < n {
        lemma_items_error_stays(ctx, items, m, (n - 1) as nat);
    }
}

/// The placements appended to `out` since it held `n` of them.
pub open spec fn added_since(files: Seq<ModelFile>, out: Seq<Placement>, n: int) -> Seq<PlacementV> {
    placements_v(files, out.skip(n))
}

proof fn lemma_added_concat(
    f1: Seq<ModelFile>,
    f2: Seq<ModelFile>,
    o0: Seq<Placement>,
    o1: Seq<Placement>,
    o2: Seq<Placement>,
)
    requires
        o0.len() <= o1.len() <= o2.len(),
        o1.take(o0.len() as int) == o0,
        o2.take(o1.len() as int) == o1,
        f1.len() <= f2.len(),
        forall|k: int| 0 <= k < f1.len() ==> #[trigger] f2[k] == f1[k],
        forall|i: int| 0 <= i < o1.len() ==> (#[trigger] o1[i]).file < f1.len(),
    ensures
        o2.take(o0.len() as int) == o0,
        added_since(f2, o2, o0.len() as int) == added_since(f1, o1, o0.len() as int) + added_since(
            f2,
            o2,
            o1.len() as int,
        ),
{
    assert(o2.take(o0.len() as int) =~= o0) by {
        assert forall|i: int| 0 <= i < o0.len() implies o2[i] == o0[i] by {
            assert(o2.take(o1.len() as int)[i] == o2[i]);
            assert(o1.take(o0.len() as int)[i] == o1[i]);
        }
    }
    assert(o2.skip(o0.len() as int) =~= o1.skip(o0.len() as int) + o2.skip(o1.len() as int)) by {
        assert forall|i: int| 0 <= i < o1.len() - o0.len() implies o2.skip(o0.len() as int)[i] == o1.skip(o0.len() as int)[i] by {
            assert(o2.take(o1.len() as int)[o0.len() + i] == o2[o0.len() + i]);
        }
    }
    lemma_placements_v_stable(f1, f2, o1.skip(o0.len() as int));
    assert(placements_v(f2, o2.skip(o0.len() as int)) =~= placements_v(f2, o1.skip(o0.len() as int))
        + placements_v(f2, o2.skip(o1.len() as int)));
}

/// The position in `files` of the model file a component's objects are in: the same
/// file without a `path`; otherwise the file of the normalized path, read out of the
/// package and parsed (then appended to `files`) the first time it is needed.
fn component_file(
    data: &[u8],
    path: &Option<Vec<char>>,
    file: usize,
    files: &mut Vec<ModelFile>,
    out: &Vec<Placement>,
    Ghost(ctx): Ghost<PackageV>,
) -> (r: Result<usize, ThreeMfError>)
    requires
        file < old(files)@.len(),
        files_ok(ctx, old(files)@),
        placements_ok(old(files)@, out@),
        ctx.data == data@,
    ensures
        final(files)@.len() >= old(files)@.len(),
        forall|k: int| 0 <= k < old(files)@.len() ==> #[trigger] final(files)@[k] == old(files)@[k],
        files_ok(ctx, final(files)@),
        placements_ok(final(files)@, out@),
        zip_is_archive(data@) ==> !(r matches Err(ThreeMfError::NotAnArchive(_))),
        match r {
            Ok(t) => t < final(files)@.len() && comp_target(
                ctx,
                objects_v(old(files)@[file as int].objects@),
                old(files)@[file as int].key@,
                ComponentV { path: opt_chars_view(*path), object_id: 0, transform: Seq::empty() },
            ) == Ok::<(Seq<char>, Map<u32, ObjectV>), PackageError>(
                (final(files)@[t as int].key@, objects_v(final(files)@[t as int].objects@)),
            ),
            Err(e) => comp_target(
                ctx,
                objects_v(old(files)@[file as int].objects@),
                old(files)@[file as int].key@,
                ComponentV { path: opt_chars_view(*path), object_id: 0, transform: Seq::empty() },
            ) == Err::<(Seq<char>, Map<u32, ObjectV>), PackageError>(error_v(e)),
        },
{
    let ext_path = match path {
        None => return Ok(file),
        Some(p) => p,
    };
    let normalized = normalize_chars(ext_path);
    match find_file(files, &normalized) {
        Some(f) => {
            assert(file_objects(ctx, files@[f as int].key@) == Ok::<Map<u32, ObjectV>, PackageError>(
                objects_v(files@[f as int].objects@),
            ));
            Ok(f)
        },
        None => {
            assert(files@[0].key@ != normalized@);
            assert(normalized@.len() > 0) by {
                if normalized@.len() == 0 {
                    assert(normalized@ =~= Seq::<char>::empty());
                }
            }
            let name = string_from_chars(&normalized);
            let xml = match read_zip_entry(data, name.as_str()) {
                Ok(x) => x,
                Err(e) => {
                    assert(file_objects(ctx, normalized@) == Err::<Map<u32, ObjectV>, PackageError>(error_v(e)));
                    return Err(e);
                },
            };
            let objects = match parse_model_xml(&xml) {
                Ok(o) => o,
                Err(m) => {
                    assert(file_objects(ctx, normalized@) == Err::<Map<u32, ObjectV>, PackageError>(PackageError::Xml(m@)));
                    return Err(ThreeMfError::Xml(m));
                },
            };
            let ghost files_before = files@;
            files.push(ModelFile { key: normalized, objects });
            assert forall|j: int| 0 <= j < out@.len() implies {
                let p = #[trigger] out@[j];
                &&& p.file < files@.len()
                &&& files@[p.file as int].objects@.contains_key(p.object_id)
                &&& files@[p.file as int].objects@[p.object_id] is MeshData
                &&& 1 <= p.transforms@.len() <= 22
            } by {
                assert(files@[out@[j].file as int] == files_before[out@[j].file as int]);
            }
            assert forall|k: int| 0 <= k < files@.len() implies file_objects(ctx, #[trigger] files@[k].key@)
                == Ok::<Map<u32, ObjectV>, PackageError>(objects_v(files@[k].objects@)) by {
                if k < files_before.len() {
                    assert(files@[k] == files_before[k]);
                }
            }
            Ok(files.len() - 1)
        },
    }
}

/// Resolve object `object_id` of file `file` (see [`resolve_obj`]): its placements are
/// appended to `out`. Model files that components reference are read out of the package
/// and parsed the first time they are needed, and appended to `files`.
#[verifier::rlimit(60)]
fn resolve_object(
    data: &[u8],
    object_id: u32,
    chain: &Vec<Vec<Vec<u8>>>,
    file: usize,
    files: &mut Vec<ModelFile>,
    out: &mut Vec<Placement>,
    depth: u32,
    root_object_id: u32,
    color: Rgb,
    metas: &HashMap<u32, ObjectColorMeta>,
    filament: &[Rgb],
    Ghost(ctx): Ghost<PackageV>,
) -> (r: Result<(), ThreeMfError>)
    requires
        file < old(files)@.len(),
        depth <= 21,
        chain@.len() == depth + 1,
        placements_ok(old(files)@, old(out)@),
        files_ok(ctx, old(files)@),
        ctx.data == data@,
        ctx.metas == color_metas_v(metas@),
        ctx.filament == filament@,
    ensures
        final(files)@.len() >= old(files)@.len(),
        forall|k: int| 0 <= k < old(files)@.len() ==> #[trigger] final(files)@[k] == old(files)@[k],
        placements_ok(final(files)@, final(out)@),
        files_ok(ctx, final(files)@),
        zip_is_archive(data@) ==> !(r matches Err(ThreeMfError::NotAnArchive(_))),
        final(out)@.len() >= old(out)@.len(),
        final(out)@.take(old(out)@.len() as int) == old(out)@,
        match r {
            Ok(()) => resolve_obj(
                ctx,
                objects_v(old(files)@[file as int].objects@),
                old(files)@[file as int].key@,
                object_id,
                chain_v(chain@),
                depth as nat,
                root_object_id,
                color,
            ) == Ok::<Seq<PlacementV>, PackageError>(
                added_since(final(files)@, final(out)@, old(out)@.len() as int),
            ),
            Err(e) => resolve_obj(
                ctx,
                objects_v(old(files)@[file as int].objects@),
                old(files)@[file as int].key@,
                object_id,
                chain_v(chain@),
                depth as nat,
                root_object_id,
                color,
            ) == Err::<Seq<PlacementV>, PackageError>(error_v(e)),
        },
    decreases 21 - depth,
{
    let ghost out0 = out@;
    let ghost files0 = files@;
    let ghost objs = objects_v(files0[file as int].objects@);
    let ghost key = files0[file as int].key@;
    let ghost chv = chain_v(chain@);
    assert(out@.take(out0.len() as int) =~= out0);
    if depth > 20 {
        return Err(ThreeMfError::TooDeep);
    }
    let components = match files[file].objects.get(&object_id) {
        Some(ObjectData::MeshData(_)) => {
            let p = Placement { file, object_id, transforms: copy_chain(chain), color };
            out.push(p);
            assert forall|i: int| 0 <= i < out@.len() implies {
                let p = #[trigger] out@[i];
                &&& p.file < files@.len()
                &&& files@[p.file as int].objects@.contains_key(p.object_id)
                &&& files@[p.file as int].objects@[p.object_id] is MeshData
                &&& 1 <= p.transforms@.len() <= 22
            } by {
                if i < out0.len() {
                    assert(out@[i] == out0[i]);
                }
            }
            assert(out@.take(out0.len() as int) =~= out0);
            assert(out@.skip(out0.len() as int) =~= seq![p]);
            assert(added_since(files@, out@, out0.len() as int) =~= seq![
                PlacementV { key, object_id, transforms: chv, color },
            ]);
            return Ok(());
        },
        Some(ObjectData::Components(cs)) => copy_components(cs),
        None => {
            assert(added_since(files@, out@, out0.len() as int) =~= Seq::<PlacementV>::empty());
            return Ok(());
        },
    };
    let ghost csv = components_v(components@);
    assert(objs.contains_key(object_id) && objs[object_id] == ObjectV::Components(csv));
    assert(added_since(files@, out@, out0.len() as int) =~= Seq::<PlacementV>::empty());
    let mut i: usize = 0;
    while i < components.len()
        invariant
            i <= components@.len(),
            depth <= 20,
            chain@.len() == depth + 1,
            chv == chain_v(chain@),
            csv == components_v(components@),
            file < files@.len(),
            file < files0.len(),
            files@.len() >= files0.len(),
            files0 == old(files)@,
            out0 == old(out)@,
            objs == objects_v(files0[file as int].objects@),
            key == files0[file as int].key@,
            forall|k: int| 0 <= k < files0.len() ==> #[trigger] files@[k] == files0[k],
            placements_ok(files@, out@),
            files_ok(ctx, files@),
            ctx.data == data@,
            ctx.metas == color_metas_v(metas@),
            ctx.filament == filament@,
            out@.len() >= out0.len(),
            out@.take(out0.len() as int) == out0,
            objs.contains_key(object_id),
            objs[object_id] == ObjectV::Components(csv),
            resolve_comps(ctx, objs, key, csv, i as nat, chv, depth as nat, root_object_id, color)
                == Ok::<Seq<PlacementV>, PackageError>(added_since(files@, out@, out0.len() as int)),
        decreases components@.len() - i,
    {
        let comp = &components[i];
        assert(csv[i as int] == component_v(*comp));
        let mut child_chain = copy_chain(chain);
        let ghost cc0 = child_chain@;
        child_chain.push(copy_token_list(&comp.transform));
        assert(chain_v(child_chain@) =~= chv.push(csv[i as int].transform)) by {
            assert(chain_v(cc0) == chv);
        }
        let pe = part_extruder(metas, root_object_id, comp.object_id);
        let child_color = extruder_color(filament, pe, color);
        assert(child_color == comp_color(ctx, root_object_id, csv[i as int], color));
        let ghost files_before = files@;
        let target = match component_file(data, &comp.path, file, files, out, Ghost(ctx)) {
            Ok(t) => t,
            Err(e) => {
                proof {
                    let cpath = ComponentV { path: opt_chars_view(comp.path), object_id: 0, transform: Seq::empty() };
                    assert(files_before[file as int] == files0[file as int]);
                    assert(comp_target(ctx, objs, key, csv[i as int]) == comp_target(ctx, objs, key, cpath));
                    assert(comp_target(ctx, objs, key, csv[i as int]) == Err::<(Seq<char>, Map<u32, ObjectV>), PackageError>(error_v(e)));
                    assert(resolve_comps(ctx, objs, key, csv, (i + 1) as nat, chv, depth as nat, root_object_id, color) is Err);
                    lemma_comps_error_stays(ctx, objs, key, csv, (i + 1) as nat, csv.len(), chv, depth as nat, root_object_id, color);
                }
                return Err(e);
            },
        };
        let ghost files_mid = files@;
        let ghost out_mid = out@;
        let ghost cpath = ComponentV { path: opt_chars_view(comp.path), object_id: 0, transform: Seq::empty() };
        assert(files_before[file as int] == files0[file as int]);
        assert(comp_target(ctx, objs, key, csv[i as int]) == comp_target(ctx, objs, key, cpath));
        assert(comp_target(ctx, objs, key, csv[i as int]) == Ok::<(Seq<char>, Map<u32, ObjectV>), PackageError>(
            (files_mid[target as int].key@, objects_v(files_mid[target as int].objects@)),
        ));
        proof {
            lemma_placements_v_stable(files_before, files_mid, out_mid.skip(out0.len() as int));
        }
        let rr = resolve_object(
            data,
            comp.object_id,
            &child_chain,
            target,
            files,
            out,
            depth + 1,
            root_object_id,
            child_color,
            metas,
            filament,
            Ghost(ctx),
        );
        assert forall|k: int| 0 <= k < files0.len() implies #[trigger] files@[k] == files0[k] by {
            assert(files@[k] == files_mid[k]);
            assert(files_mid[k] == files_before[k]);
        }
        match rr {
            Ok(()) => {},
            Err(e) => {
                proof {
                    assert(resolve_comps(ctx, objs, key, csv, (i + 1) as nat, chv, depth as nat, root_object_id, color)
                        == Err::<Seq<PlacementV>, PackageError>(error_v(e)));
                    lemma_comps_error_stays(ctx, objs, key, csv, (i + 1) as nat, csv.len(), chv, depth as nat, root_object_id, color);
                    lemma_added_concat(files_mid, files@, out0, out_mid, out@);
                }
                return Err(e);
            },
        }
        proof {
            lemma_added_concat(files_mid, files@, out0, out_mid, out@);
        }
        i = i + 1;
    }
    Ok(())
}

/// The colour of a build item's object: its default extruder's filament colour, or the
/// fallback colour.
fn item_color(metas: &HashMap<u32, ObjectColorMeta>, object: u32, filament: &[Rgb]) -> (r: Rgb)
    ensures
        r == spec_extruder_color(
            filament@,
            if metas@.contains_key(object) {
                metas@[object].default_extruder
            } else {
                None
            },
            Rgb::Default,
        ),
{
    let default_extruder = match metas.get(&object) {
        Some(m) => m.default_extruder,
        None => None,
    };
    extruder_color(filament, default_extruder, Rgb::Default)
}

/// The context in which a package's build items are resolved: its root model's objects,
/// colour metadata and filament colours (empty where they cannot be read).
pub open spec fn package_context(data: Seq<u8>) -> PackageV {
    let x = match spec_read_entry(data, "3D/3dmodel.model"@) {
        Ok(x) => x,
        Err(_) => Seq::empty(),
    };
    PackageV {
        data,
        root: match spec_parse_model_xml(x) {
            Ok(o) => o,
            Err(_) => Map::empty(),
        },
        metas: package_metas(data),
        filament: package_filament(data),
    }
}

/// Read a 3MF package (its bytes) into placements of geometry (see [`spec_read_3mf`]):
/// the root model `3D/3dmodel.model` must be readable and place at least one build item;
/// the filament colours (`Metadata/project_settings.config`) and per-object extruders
/// (`Metadata/model_settings.config`) are used when present. Geometry is held in
/// production-extension object files (`p:path`) as well as in the root model; every model
/// file returned is the parse of the entry its key names (the root model has the empty
/// key).
#[verifier::rlimit(60)]
pub fn read_3mf(data: &[u8]) -> (r: Result<Resolved, ThreeMfError>)
    ensures
        match r {
            Ok(res) => spec_read_3mf(data@) == Ok::<Seq<PlacementV>, PackageError>(
                placements_v(res.files@, res.placements@),
            ),
            Err(e) => spec_read_3mf(data@) == Err::<Seq<PlacementV>, PackageError>(error_v(e)),
        },
        r matches Ok(res) ==> placements_ok(res.files@, res.placements@),
        r matches Ok(res) ==> files_ok(package_context(data@), res.files@),
        (r matches Err(ThreeMfError::NotAnArchive(_))) <==> !zip_is_archive(data@),
{
    let root_xml = read_zip_entry(data, "3D/3dmodel.model")?;
    let root_objects = match parse_model_xml(&root_xml) {
        Ok(o) => o,
        Err(m) => return Err(ThreeMfError::Xml(m)),
    };
    let build_items = match parse_build_items(&root_xml) {
        Ok(b) => b,
        Err(m) => return Err(ThreeMfError::Xml(m)),
    };
    if build_items.len() == 0 {
        return Err(ThreeMfError::NoBuildItems);
    }
    let filament = match zip_read_entry(data, "Metadata/project_settings.config") {
        Ok(d) => parse_filament_colors(&d),
        Err(_) => Vec::new(),
    };
    let metas = match zip_read_entry(data, "Metadata/model_settings.config") {
        Ok(d) => parse_object_color_meta(&d),
        Err(_) => {
            let m: HashMap<u32, ObjectColorMeta> = HashMap::new();
            assert(color_metas_v(m@) =~= Map::<u32, ColorMetaV>::empty());
            m
        },
    };
    let ghost ctx = package_context(data@);
    assert(ctx.root == objects_v(root_objects@));
    assert(ctx.filament == filament@);
    assert(ctx.metas == color_metas_v(metas@));
    let ghost items_v = build_items_v(build_items@);
    assert(spec_read_3mf(data@) == resolve_items(ctx, items_v, items_v.len()));
    let mut files: Vec<ModelFile> = Vec::new();
    files.push(ModelFile { key: Vec::new(), objects: root_objects });
    let mut out: Vec<Placement> = Vec::new();
    assert(placements_v(files@, out@) =~= Seq::<PlacementV>::empty());
    let mut i: usize = 0;
    while i < build_items.len()
        invariant
            i <= build_items@.len(),
            items_v == build_items_v(build_items@),
            files_ok(ctx, files@),
            ctx.root == objects_v(files@[0].objects@),
            ctx.data == data@,
            ctx.metas == color_metas_v(metas@),
            ctx.filament == filament@,
            placements_ok(files@, out@),
            zip_is_archive(data@),
            spec_read_3mf(data@) == resolve_items(ctx, items_v, items_v.len()),
            items_v.len() == build_items@.len(),
            resolve_items(ctx, items_v, i as nat) == Ok::<Seq<PlacementV>, PackageError>(
                placements_v(files@, out@),
            ),
        decreases build_items@.len() - i,
    {
        let item = &build_items[i];
        assert(items_v[i as int] == build_item_v(*item));
        let color = item_color(&metas, item.object_id, &filament);
        assert(color == spec_item_color(ctx, item.object_id));
        let mut chain: Vec<Vec<Vec<u8>>> = Vec::new();
        chain.push(copy_token_list(&item.transform));
        assert(chain_v(chain@) =~= seq![items_v[i as int].transform]);
        let ghost files_before = files@;
        let ghost out_before = out@;
        assert(out_before.skip(0) =~= out_before);
        assert(out_before.take(0) =~= Seq::<Placement>::empty());
        let rr = resolve_object(
            data,
            item.object_id,
            &chain,
            0,
            &mut files,
            &mut out,
            0,
            item.object_id,
            color,
            &metas,
            &filament,
            Ghost(ctx),
        );
        match rr {
            Ok(()) => {},
            Err(e) => {
                proof {
                    assert(resolve_items(ctx, items_v, (i + 1) as nat) == Err::<Seq<PlacementV>, PackageError>(error_v(e)));
                    lemma_items_error_stays(ctx, items_v, (i + 1) as nat, items_v.len());
                }
                return Err(e);
            },
        }
        proof {
            lemma_added_concat(files_before, files@, Seq::empty(), out_before, out@);
            assert(out@.skip(0) =~= out@);
        }
        i = i + 1;
    }
    Ok(Resolved { files, placements: out })
}

} // verus!
