use andes_res::container::Container;
use andes_res::palette::PaletteDef;
use andes_res::resources::{compile_all, CompileError, Output, ResConfig};

const BANNER: &str = "// AUTOMATICALLY GENERATED BY ANDES SDK. MODIFYING NOT RECOMMENDED.\n\n";

fn stage(data: &[u8], header: &str, source: &str) -> Output {
    Output { data: data.to_vec(), header: header.to_string(), source: source.to_string() }
}

fn one_palette() -> ResConfig {
    ResConfig { palettes: vec![PaletteDef { id: "pal".to_string(), path: "pal.pal".to_string() }] }
}

fn run(data: &[u8]) -> Result<Output, CompileError> {
    compile_all(
        &one_palette(),
        &vec!["JASC-PAL\n0100\n1\n255 128 0\n".to_string()],
        &stage(data, "\n// ---- rawdata ----\nextern struct RawResource RES_blob;\n", "\n// rd\n"),
        &stage(&[9], "// sprites\n", "// sprites src\n"),
        &stage(&[], "// tiles\n", "// tiles src\n"),
    )
}

#[test]
fn container_framing() {
    let out = run(&[1, 2, 3]).ok().unwrap();
    assert_eq!(&out.data[0..10], b"ANDES     ");
    let len = u64::from_le_bytes(out.data[10..18].try_into().unwrap());
    assert_eq!(len, out.data.len() as u64);
    assert_eq!(len, 22);
    assert_eq!(&out.data[18..], &[1, 2, 3, 9]);
}

#[test]
fn empty_container() {
    let c = Container::new();
    assert_eq!(c.payload_len(), 0);
    let bytes = c.finish();
    assert_eq!(bytes, b"ANDES     \x12\0\0\0\0\0\0\0".to_vec());
}

#[test]
fn large_length_field() {
    let mut c = Container::new();
    c.append(&vec![7u8; 300]);
    assert_eq!(c.payload_len(), 300);
    let bytes = c.finish();
    assert_eq!(bytes.len(), 318);
    assert_eq!(&bytes[10..18], &[0x3E, 0x01, 0, 0, 0, 0, 0, 0]);
}

#[test]
fn stream_ordering() {
    let out = run(&[]).ok().unwrap();
    let expected_header = format!(
        "{}#pragma once\n\n#include <andes_res_types.h>\n\n\n// ---- palettes ----\n\
         extern struct PaletteResource RES_pal;\n\n// ---- rawdata ----\n\
         extern struct RawResource RES_blob;\n// sprites\n// tiles\n",
        BANNER
    );
    assert_eq!(out.header, expected_header);
    let pal = out.header.find("RES_pal").unwrap();
    let raw = out.header.find("RES_blob").unwrap();
    assert!(pal < raw);
    let expected_source = format!(
        "{}#include <andes_resources.h>\n\n\n// ---- palettes ----\n\
         const unsigned short DATA_pal[] = {{ 0x8f,  }};\n\
         struct PaletteResource RES_pal = {{ .data = &DATA_pal, .size = 2 }};\n\
         \n// rd\n// sprites src\n// tiles src\n",
        BANNER
    );
    assert_eq!(out.source, expected_source);
}

#[test]
fn idempotence() {
    let a = run(&[5, 6]).ok().unwrap();
    let b = run(&[5, 6]).ok().unwrap();
    assert_eq!(a.data, b.data);
    assert_eq!(a.header, b.header);
    assert_eq!(a.source, b.source);
}

#[test]
fn malformed_palette_fails_the_run() {
    let r = compile_all(
        &one_palette(),
        &vec!["h\nh\nh\n255 x 0\n".to_string()],
        &stage(&[1], "", ""),
        &stage(&[], "", ""),
        &stage(&[], "", ""),
    );
    match r {
        Err(CompileError::PaletteParse { id }) => assert_eq!(id, "pal"),
        Ok(_) => panic!("a malformed palette compiled"),
    }
}
