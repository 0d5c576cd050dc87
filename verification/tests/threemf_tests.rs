use model_browser::mesh::default_color;
use model_browser::text::chars_of;
use model_browser::threemf::attrs::{parse_triangle, parse_vertex, transform_tokens};
use model_browser::threemf::colors::{
    extruder_color, filament_colors_of, parse_filament_colors, parse_hex_color, HexColor, Rgb,
};
use model_browser::threemf::meta::parse_object_color_meta;
use model_browser::threemf::model::{parse_build_items, parse_model_xml, ObjectData};
use model_browser::threemf::package::{
    extract_thumbnail, normalize_zip_path, read_3mf, read_zip_entry, ThreeMfError,
    ThumbnailError,
};
use model_browser::threemf::write::write_3mf;
use model_browser::xml::XmlAttr;
use std::io::Write;

/// The number a coordinate text stands for (an empty text is 0).
fn number(text: &[u8]) -> f32 {
    if text.is_empty() {
        0.0
    } else {
        std::str::from_utf8(text).unwrap().parse::<f32>().unwrap()
    }
}

fn token_number(t: &[char]) -> f32 {
    t.iter().collect::<String>().parse::<f32>().unwrap()
}

fn attr(key: &str, value: &str) -> XmlAttr {
    XmlAttr { key: key.as_bytes().to_vec(), value: value.as_bytes().to_vec() }
}

/// sRGB byte to linear light, as the browser converts colours.
fn to_linear(c: u8) -> f32 {
    let c = c as f32 / 255.0;
    if c <= 0.04045 {
        c / 12.92
    } else {
        ((c + 0.055) / 1.055).powf(2.4)
    }
}

/// A zip archive holding the given entries, deflated.
fn zip_of(entries: &[(&str, &[u8])]) -> Vec<u8> {
    let mut w = zip::ZipWriter::new(std::io::Cursor::new(Vec::new()));
    let opts = zip::write::SimpleFileOptions::default()
        .compression_method(zip::CompressionMethod::Deflated);
    for (name, data) in entries {
        w.start_file(*name, opts).unwrap();
        w.write_all(data).unwrap();
    }
    w.finish().unwrap().into_inner()
}

fn texts(values: &[f32]) -> Vec<Vec<u8>> {
    values.iter().map(|v| format!("{}", v).into_bytes()).collect()
}

#[test]
fn test_parse_3mf_transform_string() {
    let t = transform_tokens(&chars_of("1 0 0 0 1 0 0 0 1 2.977 -21.596 0.346")).unwrap();
    assert_eq!(t.len(), 12);
    assert!((token_number(&t[0]) - 1.0).abs() < 1e-6);
    assert!((token_number(&t[9]) - 2.977).abs() < 1e-3);
    assert!((token_number(&t[10]) - (-21.596)).abs() < 1e-3);
}

#[test]
fn test_normalize_zip_path() {
    assert_eq!(normalize_zip_path("/3D/Objects/object_15.model"), "3D/Objects/object_15.model");
    assert_eq!(normalize_zip_path("3D\\Objects\\object_15.model"), "3D/Objects/object_15.model");
    assert_eq!(normalize_zip_path("../../../etc/passwd"), "");
}

#[test]
fn test_parse_model_xml_mesh() {
    let xml = br#"<model>
  <resources>
    <object id="7" type="model">
      <mesh>
        <vertices>
          <vertex x="0" y="0" z="0"/>
          <vertex x="1.5" z="3e2"/>
          <vertex x="0" y="1" z="0"/>
        </vertices>
        <triangles>
          <triangle v1="0" v2="1" v3="2"/>
        </triangles>
      </mesh>
    </object>
  </resources>
</model>"#;
    let objects = parse_model_xml(xml).unwrap();
    let ObjectData::MeshData(mesh) = objects.get(&7).expect("object 7") else {
        panic!("expected mesh data");
    };
    assert_eq!(mesh.vertices.len() * 3, 9);
    assert_eq!(mesh.indices, vec![0, 1, 2]);
    assert!((number(&mesh.vertices[1].x) - 1.5).abs() < 1e-6);
    assert_eq!(number(&mesh.vertices[1].y), 0.0);
    assert!((number(&mesh.vertices[1].z) - 300.0).abs() < 1e-3);
}

#[test]
fn test_write_3mf_roundtrip() {
    let positions = [0.0f32, 0.0, 0.0, 10.5, 0.0, 0.0, 0.0, 7.25, 0.0];
    let indices = vec![0u32, 1, 2];
    let bytes = write_3mf(&texts(&positions), &indices).unwrap();

    let parsed = read_3mf(&bytes).unwrap();
    assert_eq!(parsed.placements.len(), 1);
    let p = &parsed.placements[0];
    let ObjectData::MeshData(mesh) = parsed.files[p.file].objects.get(&p.object_id).unwrap() else {
        panic!("expected mesh data");
    };
    assert_eq!(mesh.vertices.len(), 3);
    assert_eq!(mesh.indices.len() / 3, 1);
    assert_eq!(mesh.indices, indices);
    let read: Vec<f32> = mesh
        .vertices
        .iter()
        .flat_map(|v| [number(&v.x), number(&v.y), number(&v.z)])
        .collect();
    for (a, b) in read.iter().zip(positions.iter()) {
        assert!((a - b).abs() < 1e-6);
    }
    assert_eq!(p.color, Rgb::Default);
}

#[test]
fn test_parse_hex_color() {
    let black = parse_hex_color(b"#000000");
    assert_eq!(black, HexColor::Color(0, 0, 0));
    assert!(to_linear(0).abs() < 1e-6);
    let white = parse_hex_color(b"#FFFFFF");
    assert_eq!(white, HexColor::Color(255, 255, 255));
    assert!((to_linear(255) - 1.0).abs() < 1e-6);
    assert!(matches!(parse_hex_color(b"#FF000080"), HexColor::Color(255, 0, 0)));
    assert_eq!(parse_hex_color(b"not-a-color"), HexColor::NotAColor);
    assert_eq!(parse_hex_color(b"#FFF"), HexColor::NotAColor);
}

#[test]
fn test_parse_filament_colors() {
    let json = br##"{"filament_colour": ["#000000", "#FFFFFF", "#D2B79B"]}"##;
    let colors = parse_filament_colors(json);
    assert_eq!(colors.len(), 3);
    assert_eq!(colors[0], Rgb::Srgb(0, 0, 0));
    assert_eq!(colors[1], Rgb::Srgb(255, 255, 255));
    assert_eq!(colors[2], Rgb::Srgb(0xD2, 0xB7, 0x9B));
}

#[test]
fn test_parse_filament_colors_missing_field() {
    let json = br#"{"other_key": "value"}"#;
    assert!(parse_filament_colors(json).is_empty());
}

#[test]
fn test_parse_object_color_meta() {
    let xml = br#"<?xml version="1.0"?>
<config>
  <object id="12">
    <metadata key="extruder" value="4"/>
    <part id="1" subtype="normal_part">
      <metadata key="extruder" value="1"/>
    </part>
    <part id="2" subtype="normal_part">
      <metadata key="matrix" value="1 0 0 0"/>
    </part>
  </object>
</config>"#;
    let meta = parse_object_color_meta(xml);
    let obj = meta.get(&12).unwrap();
    assert_eq!(obj.default_extruder, Some(4));
    assert_eq!(obj.part_extruders.get(&1), Some(&1));
    assert_eq!(obj.part_extruders.get(&2), None);
}

#[test]
fn test_extruder_color_falls_back() {
    let colors = vec![Rgb::Srgb(0, 0, 0), Rgb::Srgb(255, 255, 255)];
    assert_eq!(extruder_color(&colors, Some(1), Rgb::Default), Rgb::Srgb(0, 0, 0));
    assert_eq!(extruder_color(&colors, Some(99), Rgb::Default), Rgb::Default);
    assert_eq!(extruder_color(&colors, None, Rgb::Default), Rgb::Default);
}

#[test]
fn extruder_zero_falls_back() {
    let colors = vec![Rgb::Srgb(1, 2, 3)];
    assert_eq!(extruder_color(&colors, Some(0), Rgb::Default), Rgb::Default);
    assert_eq!(extruder_color(&colors, Some(1), Rgb::Default), Rgb::Srgb(1, 2, 3));
}

#[test]
fn hex_color_needs_six_or_eight_digits() {
    assert_eq!(parse_hex_color(b"#1234567"), HexColor::NotAColor);
    assert_eq!(parse_hex_color(b"#123456789"), HexColor::NotAColor);
    assert_eq!(parse_hex_color(b"#FF0000ZZ"), HexColor::NotAColor);
    assert_eq!(parse_hex_color(b"#0A0B0Cff"), HexColor::Color(10, 11, 12));
}

#[test]
fn filament_colors_of_odd_entries() {
    let json = r##"{"filament_colour": ["#12", 7, "#0A0B0C"]}"##;
    let colors = parse_filament_colors(json.as_bytes());
    assert_eq!(colors, vec![Rgb::Default, Rgb::Default, Rgb::Srgb(10, 11, 12)]);
    assert!(parse_filament_colors(b"not json").is_empty());
    let bad = "{\"filament_colour\": [\"#1\u{e9}234\"]}";
    assert_eq!(parse_filament_colors(bad.as_bytes()), vec![Rgb::Default]);
}

#[test]
fn hex_color_unsliceable_text() {
    assert_eq!(parse_hex_color("#1\u{e9}234".as_bytes()), HexColor::Unsliceable);
    assert_eq!(parse_hex_color("#\u{e9}12345".as_bytes()), HexColor::NotAColor);
    assert_eq!(parse_hex_color(b"#GG0000"), HexColor::NotAColor);
}

#[test]
fn vertex_and_triangle_attributes() {
    let v = parse_vertex(&[attr("x", "1"), attr("y", "oops"), attr("z", "2"), attr("x", "-3.5")]);
    assert_eq!(v.x, b"-3.5".to_vec());
    assert!(v.y.is_empty());
    assert_eq!(v.z, b"2".to_vec());
    let t = parse_triangle(&[attr("v1", "4"), attr("v2", "-1"), attr("ns:v3", "9"), attr("v2", "5")]);
    assert_eq!(t, [4, 5, 9]);
    let t = parse_triangle(&[attr("v1", "4294967296")]);
    assert_eq!(t, [0, 0, 0]);
}

#[test]
fn transform_needs_twelve_numbers() {
    assert!(transform_tokens(&chars_of("1 0 0 0 1 0 0 0 1 0 0")).is_none());
    let t = transform_tokens(&chars_of(" 1 x 0 0 0 1 0 0 0 1 0 0 5\t")).unwrap();
    assert_eq!(t.len(), 12);
    assert_eq!(t[11], vec!['5']);
}

#[test]
fn build_items_inside_build_only() {
    let xml = br#"<model><item objectid="9"/><build><item objectid="3" transform="1 0 0 0 1 0 0 0 1 1 2 3"/><item/></build></model>"#;
    let items = parse_build_items(xml).unwrap();
    assert_eq!(items.len(), 2);
    assert_eq!(items[0].object_id, 3);
    assert_eq!(items[0].transform.len(), 12);
    assert_eq!(items[0].transform[9], b"1".to_vec());
    assert_eq!(items[1].object_id, 0);
    assert!(items[1].transform.is_empty());
}

#[test]
fn malformed_model_is_an_xml_error() {
    let r = parse_model_xml(b"<model><object id=\"1\"></mesh></model>");
    assert!(r.unwrap_err().starts_with("XML parse error: "));
}

#[test]
fn components_and_colours_resolve_across_files() {
    let root = br#"<model xmlns:p="http://schemas.microsoft.com/3dmanufacturing/production/2015/06">
<resources>
<object id="1" type="model"><components>
  <component p:path="/3D/Objects/object_1.model" objectid="2" transform="1 0 0 0 1 0 0 0 1 5 0 0"/>
  <component p:path="\3D\Objects\object_1.model" objectid="3"/>
</components></object>
</resources>
<build><item objectid="1" transform="1 0 0 0 1 0 0 0 1 10 0 0"/></build>
</model>"#;
    let part = br#"<model><resources>
<object id="2"><mesh><vertices><vertex x="0" y="0" z="0"/><vertex x="1" y="0" z="0"/><vertex x="0" y="1" z="0"/></vertices><triangles><triangle v1="0" v2="1" v3="2"/></triangles></mesh></object>
<object id="3"><mesh><vertices><vertex x="0" y="0" z="1"/></vertices><triangles></triangles></mesh></object>
</resources></model>"#;
    let project = br##"{"filament_colour": ["#FF0000", "#00FF00"]}"##;
    let settings = br#"<config><object id="1"><metadata key="extruder" value="1"/><part id="3"><metadata key="extruder" value="2"/></part></object></config>"#;
    let data = zip_of(&[
        ("3D/3dmodel.model", root),
        ("3D/Objects/object_1.model", part),
        ("Metadata/project_settings.config", project),
        ("Metadata/model_settings.config", settings),
    ]);
    let r = read_3mf(&data).unwrap();
    assert_eq!(r.files.len(), 2);
    assert!(r.files[0].key.is_empty());
    assert_eq!(r.files[1].key, chars_of("3D/Objects/object_1.model"));
    assert_eq!(r.placements.len(), 2);
    let first = &r.placements[0];
    assert_eq!((first.file, first.object_id), (1, 2));
    assert_eq!(first.transforms.len(), 2);
    assert_eq!(first.transforms[0][9], b"10".to_vec());
    assert_eq!(first.transforms[1][9], b"5".to_vec());
    assert_eq!(first.color, Rgb::Srgb(255, 0, 0));
    let second = &r.placements[1];
    assert_eq!((second.file, second.object_id), (1, 3));
    assert!(second.transforms[1].is_empty());
    assert_eq!(second.color, Rgb::Srgb(0, 255, 0));
}

#[test]
fn package_errors() {
    assert!(matches!(read_3mf(b"not a zip"), Err(ThreeMfError::NotAnArchive(_))));
    let no_model = zip_of(&[("other.txt", b"x")]);
    assert!(matches!(read_3mf(&no_model), Err(ThreeMfError::MissingEntry(_))));
    let bad_xml = zip_of(&[("3D/3dmodel.model", b"<model></oops>")]);
    assert!(matches!(read_3mf(&bad_xml), Err(ThreeMfError::Xml(_))));
    let no_build = zip_of(&[("3D/3dmodel.model", b"<model><resources/></model>")]);
    assert!(matches!(read_3mf(&no_build), Err(ThreeMfError::NoBuildItems)));
    assert_eq!(
        ThreeMfError::NoBuildItems.message(),
        "No build items found in 3MF file".to_string()
    );
    let cycle = br#"<model><resources><object id="1"><components><component objectid="1"/></components></object></resources><build><item objectid="1"/></build></model>"#;
    let looping = zip_of(&[("3D/3dmodel.model", cycle)]);
    assert!(matches!(read_3mf(&looping), Err(ThreeMfError::TooDeep)));
    let model = br#"<model><resources/><build><item objectid="4"/></build></model>"#;
    let bad_colour = "{\"filament_colour\": [\"#1\u{e9}234\"]}";
    let unsliceable = zip_of(&[
        ("3D/3dmodel.model", model),
        ("Metadata/project_settings.config", bad_colour.as_bytes()),
    ]);
    assert!(read_3mf(&unsliceable).is_ok());
    let missing_part = br#"<model><resources><object id="1"><components><component p:path="/3D/none.model" objectid="1"/></components></object></resources><build><item objectid="1"/></build></model>"#;
    let dangling = zip_of(&[("3D/3dmodel.model", missing_part)]);
    assert!(matches!(read_3mf(&dangling), Err(ThreeMfError::MissingEntry(_))));
}

#[test]
fn unknown_object_places_nothing() {
    let model = br#"<model><resources/><build><item objectid="4"/></build></model>"#;
    let r = read_3mf(&zip_of(&[("3D/3dmodel.model", model)])).unwrap();
    assert!(r.placements.is_empty());
}

#[test]
fn zip_entries_read_back() {
    let data = zip_of(&[("a/b.txt", b"hello")]);
    assert_eq!(read_zip_entry(&data, "a/b.txt").unwrap(), b"hello".to_vec());
    assert!(matches!(read_zip_entry(&data, "c"), Err(ThreeMfError::MissingEntry(_))));
    assert!(matches!(read_zip_entry(b"xyz", "c"), Err(ThreeMfError::NotAnArchive(_))));
}

#[test]
fn thumbnails_in_order() {
    let both = zip_of(&[("Metadata/top_1.png", b"top"), ("Metadata/plate_1_small.png", b"small")]);
    assert_eq!(extract_thumbnail(&both).unwrap(), b"small".to_vec());
    let none = zip_of(&[("x", b"y")]);
    assert_eq!(extract_thumbnail(&none), Err(ThumbnailError::NoThumbnail));
    match extract_thumbnail(b"junk") {
        Err(ThumbnailError::NotAnArchive(m)) => assert!(m.starts_with("Not a valid zip/3mf: ")),
        other => panic!("expected NotAnArchive, got {:?}", other),
    }
}

#[test]
fn written_package_has_all_parts() {
    let bytes = write_3mf(&texts(&[1.0, 2.0, 3.0]), &[0, 0, 0]).unwrap();
    let model = read_zip_entry(&bytes, "3D/3dmodel.model").unwrap();
    let text = String::from_utf8(model).unwrap();
    assert!(text.contains("<vertex x=\"1\" y=\"2\" z=\"3\"/>\n"));
    assert!(text.contains("<triangle v1=\"0\" v2=\"0\" v3=\"0\"/>\n"));
    assert!(read_zip_entry(&bytes, "[Content_Types].xml").is_ok());
    assert!(read_zip_entry(&bytes, "_rels/.rels").is_ok());
    assert!(matches!(
        read_zip_entry(&bytes, "Metadata/model_settings.config"),
        Err(ThreeMfError::MissingEntry(_))
    ));
}

#[test]
fn written_package_lists_its_parts_in_order() {
    let bytes = write_3mf(&texts(&[1.0, 2.0, 3.0]), &[0, 0, 0]).unwrap();
    let archive = zip::ZipArchive::new(std::io::Cursor::new(bytes.as_slice())).unwrap();
    let names: Vec<&str> = archive.file_names().collect();
    assert_eq!(names, vec!["[Content_Types].xml", "_rels/.rels", "3D/3dmodel.model"]);
}

#[test]
fn default_colour_bits_match_linear_value() {
    assert_eq!(f32::from_bits(default_color()[0]), 0.254_152_1);
}

#[test]
fn unreadable_color_metadata_gives_none() {
    let xml = br#"<config><object id="3"><metadata key="extruder" value="2"/></oops></config>"#;
    assert!(parse_object_color_meta(xml).is_empty());
    let fine = br#"<config><object id="3"><metadata key="extruder" value="2"/></object><object id="x"/></config>"#;
    let meta = parse_object_color_meta(fine);
    assert_eq!(meta.len(), 1);
    assert_eq!(meta.get(&3).unwrap().default_extruder, Some(2));
}

#[test]
fn corrupted_entry_is_unreadable() {
    let mut w = zip::ZipWriter::new(std::io::Cursor::new(Vec::new()));
    let opts = zip::write::SimpleFileOptions::default()
        .compression_method(zip::CompressionMethod::Stored);
    w.start_file("a.txt", opts).unwrap();
    w.write_all(b"hello world").unwrap();
    let mut data = w.finish().unwrap().into_inner();
    // The stored contents follow the 30-byte local header and the name.
    let at = 30 + "a.txt".len();
    assert_eq!(&data[at..at + 5], b"hello");
    data[at] = b'j';
    assert!(matches!(read_zip_entry(&data, "a.txt"), Err(ThreeMfError::Unreadable(_))));
}

#[test]
fn filament_entries_to_colours() {
    let items = vec![Some(b"#010203".to_vec()), None, Some(b"oops".to_vec())];
    assert_eq!(
        filament_colors_of(&items),
        vec![Rgb::Srgb(1, 2, 3), Rgb::Default, Rgb::Default]
    );
    let bad = vec![Some("#1\u{e9}234".as_bytes().to_vec())];
    assert_eq!(filament_colors_of(&bad), vec![Rgb::Default]);
}
