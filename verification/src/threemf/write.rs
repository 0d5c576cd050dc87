//! Writing a minimal single-object 3MF package.
use crate::text::decimal_bytes;
use crate::threemf::colors::Rgb;
use crate::threemf::meta::ColorMetaV;
use crate::threemf::model::{spec_parse_build_items, spec_parse_model_xml};
use crate::threemf::package::{
    package_context, package_filament, package_metas, resolve_items, spec_read_3mf,
    spec_read_entry, PackageError, PackageV, PlacementV,
};
use crate::zipio::{
    zip_entry, zip_entry_names, zip_finish, zip_is_archive, zip_small_entry, zip_start_file,
    zip_write_all, zip_writer_new, zip_written, ZipCompression, ZipFailure,
};
use vstd::prelude::*;
use vstd::utf8::encode_utf8;

verus! {

/// Content types part of a written package.
pub open spec fn content_types_text() -> Seq<char> {
    "<?xml version=\"1.0\" encoding=\"UTF-8\"?>\n<Types xmlns=\"http://schemas.openxmlformats.org/package/2006/content-types\">\n <Default Extension=\"rels\" ContentType=\"application/vnd.openxmlformats-package.relationships+xml\"/>\n <Default Extension=\"model\" ContentType=\"application/vnd.ms-package.3dmanufacturing-3dmodel+xml\"/>\n</Types>"@
}

/// Package relationships part of a written package.
pub open spec fn rels_text() -> Seq<char> {
    "<?xml version=\"1.0\" encoding=\"UTF-8\"?>\n<Relationships xmlns=\"http://schemas.openxmlformats.org/package/2006/relationships\">\n <Relationship Target=\"/3D/3dmodel.model\" Id=\"rel-1\" Type=\"http://schemas.microsoft.com/3dmanufacturing/2013/01/3dmodel\"/>\n</Relationships>"@
}

pub open spec fn model_head() -> Seq<u8> {
    encode_utf8("<?xml version=\"1.0\" encoding=\"UTF-8\"?>\n<model unit=\"millimeter\" xml:lang=\"en-US\" xmlns=\"http://schemas.microsoft.com/3dmanufacturing/core/2015/02\">\n<resources>\n<object id=\"1\" type=\"model\">\n<mesh>\n<vertices>\n"@)
}

pub open spec fn model_mid() -> Seq<u8> {
    encode_utf8("</vertices>\n<triangles>\n"@)
}

pub open spec fn model_foot() -> Seq<u8> {
    encode_utf8("</triangles>\n</mesh>\n</object>\n</resources>\n<build>\n<item objectid=\"1\"/>\n</build>\n</model>\n"@)
}

/// `<vertex x="X" y="Y" z="Z"/>` and a line break.
pub open spec fn vertex_line(x: Seq<u8>, y: Seq<u8>, z: Seq<u8>) -> Seq<u8> {
    encode_utf8("<vertex x=\""@) + x + encode_utf8("\" y=\""@) + y + encode_utf8("\" z=\""@) + z + encode_utf8("\"/>\n"@)
}

/// `<triangle v1="A" v2="B" v3="C"/>` and a line break.
pub open spec fn triangle_line(a: u32, b: u32, c: u32) -> Seq<u8> {
    encode_utf8("<triangle v1=\""@) + decimal_bytes(a as nat) + encode_utf8("\" v2=\""@) + decimal_bytes(b as nat)
        + encode_utf8("\" v3=\""@) + decimal_bytes(c as nat) + encode_utf8("\"/>\n"@)
}

/// The lines of the first `n` vertices, given three coordinate texts per vertex.
pub open spec fn vertex_lines(texts: Seq<Seq<u8>>, n: nat) -> Seq<u8>
    decreases n,
{
    if n == 0 {
        Seq::empty()
    } else {
        let k = (n - 1) as int;
        vertex_lines(texts, (n - 1) as nat) + vertex_line(texts[3 * k], texts[3 * k + 1], texts[3 * k + 2])
    }
}

/// The lines of the first `n` triangles.
pub open spec fn triangle_lines(idx: Seq<u32>, n: nat) -> Seq<u8>
    decreases n,
{
    if n == 0 {
        Seq::empty()
    } else {
        let k = (n - 1) as int;
        triangle_lines(idx, (n - 1) as nat) + triangle_line(idx[3 * k], idx[3 * k + 1], idx[3 * k + 2])
    }
}

/// The single-object model of a mesh: one `<object id="1">` with every whole vertex
/// (three coordinate texts) and every whole triangle (three indices), placed once.
pub open spec fn spec_model_xml(texts: Seq<Seq<u8>>, idx: Seq<u32>) -> Seq<u8> {
    model_head() + vertex_lines(texts, texts.len() / 3) + model_mid() + triangle_lines(
        idx,
        idx.len() / 3,
    ) + model_foot()
}

/// Append the UTF-8 bytes of `s`.
pub fn push_str(buf: &mut Vec<u8>, s: &str)
    ensures
        final(buf)@ == old(buf)@ + encode_utf8(s@),
{
    let b = s.as_bytes();
    let mut i: usize = 0;
    while i < b.len()
        invariant
            i <= b@.len(),
            buf@ == old(buf)@ + b@.take(i as int),
        decreases b@.len() - i,
    {
        buf.push(b[i]);
        i = i + 1;
        assert(buf@ =~= old(buf)@ + b@.take(i as int));
    }
    assert(b@.take(i as int) =~= b@);
}

fn push_bytes(buf: &mut Vec<u8>, b: &Vec<u8>)
    ensures
        final(buf)@ == old(buf)@ + b@,
{
    let mut i: usize = 0;
    while i < b.len()
        invariant
            i <= b@.len(),
            buf@ == old(buf)@ + b@.take(i as int),
        decreases b@.len() - i,
    {
        buf.push(b[i]);
        i = i + 1;
        assert(buf@ =~= old(buf)@ + b@.take(i as int));
    }
    assert(b@.take(i as int) =~= b@);
}

proof fn lemma_triple_index(k: int, len: int)
    requires
        0 <= k < len / 3,
        0 <= len,
    ensures
        3 * k + 2 < len,
{
    assert(3 * k + 2 < len) by (nonlinear_arith)
        requires
            0 <= k < len / 3,
            0 <= len,
    ;
}

fn push_vertex_line(buf: &mut Vec<u8>, x: &Vec<u8>, y: &Vec<u8>, z: &Vec<u8>)
    ensures
        final(buf)@ == old(buf)@ + vertex_line(x@, y@, z@),
{
    push_str(buf, "<vertex x=\"");
    push_bytes(buf, x);
    push_str(buf, "\" y=\"");
    push_bytes(buf, y);
    push_str(buf, "\" z=\"");
    push_bytes(buf, z);
    push_str(buf, "\"/>\n");
    assert(final(buf)@ =~= old(buf)@ + vertex_line(x@, y@, z@));
}

fn push_triangle_line(buf: &mut Vec<u8>, a: u32, b: u32, c: u32)
    ensures
        final(buf)@ == old(buf)@ + triangle_line(a, b, c),
{
    push_str(buf, "<triangle v1=\"");
    crate::text::push_decimal(buf, a);
    push_str(buf, "\" v2=\"");
    crate::text::push_decimal(buf, b);
    push_str(buf, "\" v3=\"");
    crate::text::push_decimal(buf, c);
    push_str(buf, "\"/>\n");
    assert(final(buf)@ =~= old(buf)@ + triangle_line(a, b, c));
}

/// The model XML of a mesh (see [`spec_model_xml`]); `texts` holds the decimal text of
/// every coordinate.
pub fn model_xml(texts: &[Vec<u8>], indices: &[u32]) -> (r: Vec<u8>)
    ensures
        r@ == spec_model_xml(texts@.map_values(|t: Vec<u8>| t@), indices@),
{
    let ghost tv = texts@.map_values(|t: Vec<u8>| t@);
    let mut buf: Vec<u8> = Vec::new();
    push_str(&mut buf, "<?xml version=\"1.0\" encoding=\"UTF-8\"?>\n<model unit=\"millimeter\" xml:lang=\"en-US\" xmlns=\"http://schemas.microsoft.com/3dmanufacturing/core/2015/02\">\n<resources>\n<object id=\"1\" type=\"model\">\n<mesh>\n<vertices>\n");
    let tl = texts.len();
    let nv = tl / 3;
    let mut k: usize = 0;
    while k < nv
        invariant
            k <= nv,
            tl == texts@.len(),
            nv == tl / 3,
            tv == texts@.map_values(|t: Vec<u8>| t@),
            buf@ == model_head() + vertex_lines(tv, k as nat),
        decreases nv - k,
    {
        proof {
            lemma_triple_index(k as int, tl as int);
        }
        let b: usize = 3 * k;
        push_vertex_line(&mut buf, &texts[b], &texts[b + 1], &texts[b + 2]);
        k = k + 1;
        assert(buf@ =~= model_head() + vertex_lines(tv, k as nat));
    }
    push_str(&mut buf, "</vertices>\n<triangles>\n");
    let il = indices.len();
    let nt = il / 3;
    let ghost after_vertices = buf@;
    let mut t: usize = 0;
    while t < nt
        invariant
            t <= nt,
            il == indices@.len(),
            nt == il / 3,
            buf@ == after_vertices + triangle_lines(indices@, t as nat),
        decreases nt - t,
    {
        proof {
            lemma_triple_index(t as int, il as int);
        }
        let b: usize = 3 * t;
        push_triangle_line(&mut buf, indices[b], indices[b + 1], indices[b + 2]);
        t = t + 1;
        assert(buf@ =~= after_vertices + triangle_lines(indices@, t as nat));
    }
    push_str(&mut buf, "</triangles>\n</mesh>\n</object>\n</resources>\n<build>\n<item objectid=\"1\"/>\n</build>\n</model>\n");
    assert(buf@ =~= spec_model_xml(tv, indices@));
    buf
}

proof fn lemma_encode_utf8_len(cs: Seq<char>)
    ensures
        encode_utf8(cs).len() <= 4 * cs.len(),
    decreases cs.len(),
{
    if cs.len() > 0 {
        lemma_encode_utf8_len(cs.drop_first());
    }
}

/// The parts of a written package, in the order they are written.
pub open spec fn package_part_names() -> Seq<Seq<char>> {
    seq!["[Content_Types].xml"@, "_rels/.rels"@, "3D/3dmodel.model"@]
}

/// The bytes are a zip archive holding exactly the parts of a written package, in order:
/// content types, relationships and the model `model`, each reading back as written; any
/// other name is missing from it.
pub open spec fn written_package(bytes: Seq<u8>, model: Seq<u8>) -> bool {
    &&& zip_is_archive(bytes)
    &&& zip_entry_names(bytes) == package_part_names()
    &&& zip_entry(bytes, "[Content_Types].xml"@) == Ok::<Seq<u8>, (ZipFailure, Seq<char>)>(
        encode_utf8(content_types_text()),
    )
    &&& zip_entry(bytes, "_rels/.rels"@) == Ok::<Seq<u8>, (ZipFailure, Seq<char>)>(encode_utf8(rels_text()))
    &&& zip_entry(bytes, "3D/3dmodel.model"@) == Ok::<Seq<u8>, (ZipFailure, Seq<char>)>(model)
    &&& forall|name: Seq<char>|
        !package_part_names().contains(name) ==> (#[trigger] zip_entry(bytes, name) matches Err((f, _))
            && f == ZipFailure::MissingEntry)
}

/// Serialize a mesh into a minimal single-object 3MF package (zip bytes, entries
/// deflated): content types, relationships and the model of [`spec_model_xml`], and
/// nothing else (see [`written_package`]). Writing to memory succeeds whenever the model
/// stays within 2 GiB, far below the 4 GiB limit of a zip entry.
pub fn write_3mf(texts: &[Vec<u8>], indices: &[u32]) -> (r: Result<Vec<u8>, String>)
    ensures
        zip_small_entry(spec_model_xml(texts@.map_values(|t: Vec<u8>| t@), indices@)) ==> r is Ok,
        r matches Ok(bytes) ==> written_package(
            bytes@,
            spec_model_xml(texts@.map_values(|t: Vec<u8>| t@), indices@),
        ),
{
    let model = model_xml(texts, indices);
    let ct: &str = "<?xml version=\"1.0\" encoding=\"UTF-8\"?>\n<Types xmlns=\"http://schemas.openxmlformats.org/package/2006/content-types\">\n <Default Extension=\"rels\" ContentType=\"application/vnd.openxmlformats-package.relationships+xml\"/>\n <Default Extension=\"model\" ContentType=\"application/vnd.ms-package.3dmanufacturing-3dmodel+xml\"/>\n</Types>";
    let rels: &str = "<?xml version=\"1.0\" encoding=\"UTF-8\"?>\n<Relationships xmlns=\"http://schemas.openxmlformats.org/package/2006/relationships\">\n <Relationship Target=\"/3D/3dmodel.model\" Id=\"rel-1\" Type=\"http://schemas.microsoft.com/3dmanufacturing/2013/01/3dmodel\"/>\n</Relationships>";
    let n1: &str = "[Content_Types].xml";
    let n2: &str = "_rels/.rels";
    let n3: &str = "3D/3dmodel.model";
    proof {
        reveal_strlit("[Content_Types].xml");
        reveal_strlit("_rels/.rels");
        reveal_strlit("3D/3dmodel.model");
        reveal_strlit("<?xml version=\"1.0\" encoding=\"UTF-8\"?>\n<Types xmlns=\"http://schemas.openxmlformats.org/package/2006/content-types\">\n <Default Extension=\"rels\" ContentType=\"application/vnd.openxmlformats-package.relationships+xml\"/>\n <Default Extension=\"model\" ContentType=\"application/vnd.ms-package.3dmanufacturing-3dmodel+xml\"/>\n</Types>");
        reveal_strlit("<?xml version=\"1.0\" encoding=\"UTF-8\"?>\n<Relationships xmlns=\"http://schemas.openxmlformats.org/package/2006/relationships\">\n <Relationship Target=\"/3D/3dmodel.model\" Id=\"rel-1\" Type=\"http://schemas.microsoft.com/3dmanufacturing/2013/01/3dmodel\"/>\n</Relationships>");
        lemma_encode_utf8_len(ct@);
        lemma_encode_utf8_len(rels@);
        assert(n1@.len() != n2@.len() && n1@.len() != n3@.len() && n2@.len() != n3@.len());
    }
    let ctb = ct.as_bytes();
    let relb = rels.as_bytes();
    assert(ctb@.len() <= 4096 && relb@.len() <= 4096);
    let mut w = zip_writer_new();
    match zip_start_file(&mut w, n1, ZipCompression::Deflated) {
        Ok(()) => {},
        Err(e) => return Err(e),
    }
    match zip_write_all(&mut w, ctb) {
        Ok(()) => {},
        Err(e) => return Err(e),
    }
    let ghost w1 = zip_written(w);
    assert(w1.len() == 1 && w1[0] == (n1@, Seq::<u8>::empty() + ctb@));
    assert(Seq::<u8>::empty() + ctb@ =~= ctb@);
    match zip_start_file(&mut w, n2, ZipCompression::Deflated) {
        Ok(()) => {},
        Err(e) => return Err(e),
    }
    match zip_write_all(&mut w, relb) {
        Ok(()) => {},
        Err(e) => return Err(e),
    }
    let ghost w2 = zip_written(w);
    assert(w2.len() == 2 && w2[0] == w1[0] && w2[1] == (n2@, Seq::<u8>::empty() + relb@));
    assert(Seq::<u8>::empty() + relb@ =~= relb@);
    match zip_start_file(&mut w, n3, ZipCompression::Deflated) {
        Ok(()) => {},
        Err(e) => return Err(e),
    }
    match zip_write_all(&mut w, model.as_slice()) {
        Ok(()) => {},
        Err(e) => return Err(e),
    }
    let ghost ws = zip_written(w);
    assert(ws.len() == 3 && ws[0] == w1[0] && ws[1] == w2[1] && ws[2] == (n3@, Seq::<u8>::empty() + model@));
    assert(Seq::<u8>::empty() + model@ =~= model@);
    let bytes = match zip_finish(w) {
        Ok(b) => b,
        Err(e) => return Err(e),
    };
    proof {
        assert(zip_entry(bytes@, ws[0].0) == Ok::<Seq<u8>, (ZipFailure, Seq<char>)>(ws[0].1));
        assert(zip_entry(bytes@, ws[1].0) == Ok::<Seq<u8>, (ZipFailure, Seq<char>)>(ws[1].1));
        assert(zip_entry(bytes@, ws[2].0) == Ok::<Seq<u8>, (ZipFailure, Seq<char>)>(ws[2].1));
        assert(crate::zipio::written_names(w) =~= package_part_names());
    }
    Ok(bytes)
}

/// What a package reads as whose root model is `x` and which declares neither filament
/// colours nor colour metadata: the build items of `x` placed from the objects of `x`
/// (model files that components name are read out of `data`).
pub open spec fn read_plain_package(data: Seq<u8>, x: Seq<u8>) -> Result<Seq<PlacementV>, PackageError> {
    match spec_parse_model_xml(x) {
        Err(m) => Err(PackageError::Xml(m)),
        Ok(root) => match spec_parse_build_items(x) {
            Err(m) => Err(PackageError::Xml(m)),
            Ok(items) => if items.len() == 0 {
                Err(PackageError::NoBuildItems)
            } else {
                resolve_items(
                    PackageV { data, root, metas: Map::empty(), filament: Seq::empty() },
                    items,
                    items.len(),
                )
            },
        },
    }
}

/// Law of writing then reading a package: a package as [`write_3mf`] writes it reads
/// back through the model written alone. Its root model reads as the model written, it
/// declares no filament colours and no colour metadata, and reading it gives what
/// [`read_plain_package`] gives for that model.
pub proof fn lemma_written_package_reads_back(bytes: Seq<u8>, model: Seq<u8>)
    requires
        written_package(bytes, model),
    ensures
        spec_read_entry(bytes, "3D/3dmodel.model"@) == Ok::<Seq<u8>, PackageError>(model),
        package_filament(bytes) == Seq::<Rgb>::empty(),
        package_metas(bytes) == Map::<u32, ColorMetaV>::empty(),
        spec_read_3mf(bytes) == read_plain_package(bytes, model),
{
    reveal_strlit("[Content_Types].xml");
    reveal_strlit("_rels/.rels");
    reveal_strlit("3D/3dmodel.model");
    reveal_strlit("Metadata/project_settings.config");
    reveal_strlit("Metadata/model_settings.config");
    let names = package_part_names();
    assert(!names.contains("Metadata/project_settings.config"@)) by {
        assert(names[0].len() != "Metadata/project_settings.config"@.len());
        assert(names[1].len() != "Metadata/project_settings.config"@.len());
        assert(names[2].len() != "Metadata/project_settings.config"@.len());
    }
    assert(!names.contains("Metadata/model_settings.config"@)) by {
        assert(names[0].len() != "Metadata/model_settings.config"@.len());
        assert(names[1].len() != "Metadata/model_settings.config"@.len());
        assert(names[2].len() != "Metadata/model_settings.config"@.len());
    }
    assert(zip_entry(bytes, "Metadata/project_settings.config"@) is Err);
    assert(zip_entry(bytes, "Metadata/model_settings.config"@) is Err);
    let ctx = package_context(bytes);
    match spec_parse_model_xml(model) {
        Ok(root) => {
            assert(ctx == PackageV { data: bytes, root, metas: Map::<u32, ColorMetaV>::empty(), filament: Seq::<Rgb>::empty() });
        },
        Err(_) => {},
    }
}

/// The triangle lines of an index list read three at a time from the front, one line per
/// whole triple (`chunks_exact(3)`); a trailing partial triple writes nothing.
pub open spec fn triple_lines(idx: Seq<u32>) -> Seq<u8>
    decreases idx.len(),
{
    if idx.len() < 3 {
        Seq::empty()
    } else {
        triangle_line(idx[0], idx[1], idx[2]) + triple_lines(idx.skip(3))
    }
}

proof fn lemma_triple_lines_append(a: Seq<u32>, b: Seq<u32>)
    requires
        a.len() % 3 == 0,
    ensures
        triple_lines(a + b) == triple_lines(a) + triple_lines(b),
    decreases a.len(),
{
    if a.len() == 0 {
        assert(a + b =~= b);
    } else {
        lemma_triple_lines_append(a.skip(3), b);
        assert((a + b).skip(3) =~= a.skip(3) + b);
        assert(triple_lines(a) == triangle_line(a[0], a[1], a[2]) + triple_lines(a.skip(3)));
        assert(triple_lines(a + b) == triangle_line(a[0], a[1], a[2]) + triple_lines((a + b).skip(3)));
        assert(triple_lines(a + b) =~= triple_lines(a) + triple_lines(b));
    }
}

proof fn lemma_triangle_lines_triples(idx: Seq<u32>, n: nat)
    requires
        3 * n <= idx.len(),
    ensures
        triangle_lines(idx, n) == triple_lines(idx.take(3 * n as int)),
    decreases n,
{
    if n > 0 {
        let m: int = n - 1;
        lemma_triangle_lines_triples(idx, m as nat);
        let t = idx.subrange(3 * m, 3 * m + 3);
        assert(idx.take(3 * n as int) =~= idx.take(3 * m) + t);
        lemma_triple_lines_append(idx.take(3 * m), t);
        assert(t.skip(3).len() == 0);
        assert(triple_lines(t) == triangle_line(t[0], t[1], t[2]) + triple_lines(t.skip(3)));
        assert(triple_lines(t) =~= triangle_line(idx[3 * m], idx[3 * m + 1], idx[3 * m + 2]));
    } else {
        assert(idx.take(0).len() == 0);
    }
}

/// Law of the written model: after its vertices, the model lists one `<triangle>` per whole
/// triple of indices, in order, triangle `k` naming indices `3k`, `3k + 1` and `3k + 2`
/// (leftover indices are dropped).
pub proof fn lemma_model_triangles(texts: Seq<Seq<u8>>, idx: Seq<u32>)
    ensures
        spec_model_xml(texts, idx) == model_head() + vertex_lines(texts, texts.len() / 3) + model_mid()
            + triple_lines(idx) + model_foot(),
        forall|k: int|
            0 <= k < idx.len() / 3 ==> #[trigger] triple_lines(idx.skip(3 * k)) == triangle_line(
                idx[3 * k],
                idx[3 * k + 1],
                idx[3 * k + 2],
            ) + triple_lines(idx.skip(3 * k + 3)),
{
    let n: int = (idx.len() / 3) as int;
    lemma_triangle_lines_triples(idx, n as nat);
    let rest = idx.skip(3 * n);
    assert(idx =~= idx.take(3 * n) + rest);
    lemma_triple_lines_append(idx.take(3 * n), rest);
    assert(triple_lines(rest) == Seq::<u8>::empty());
    assert forall|k: int| 0 <= k < idx.len() / 3 implies #[trigger] triple_lines(idx.skip(3 * k))
        == triangle_line(idx[3 * k], idx[3 * k + 1], idx[3 * k + 2]) + triple_lines(idx.skip(3 * k + 3)) by {
        let r = idx.skip(3 * k);
        assert(r.skip(3) =~= idx.skip(3 * k + 3));
        assert(r[0] == idx[3 * k] && r[1] == idx[3 * k + 1] && r[2] == idx[3 * k + 2]);
    }
}

} // verus!
