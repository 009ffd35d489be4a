use andes_res::palette::{compile, pack_color, parse_palette, PaletteDef};
use andes_res::resources::{CompileError, ResConfig};

fn config(ids: &[&str]) -> ResConfig {
    ResConfig {
        palettes: ids
            .iter()
            .map(|id| PaletteDef { id: id.to_string(), path: format!("{}.pal", id) })
            .collect(),
    }
}

const HEAD: &str = "JASC-PAL\n0100\n2\n";

#[test]
fn pack_color_example() {
    assert_eq!(pack_color(255, 128, 0), 0x8F);
}

#[test]
fn pack_color_bit_positions() {
    assert_eq!(pack_color(0, 0, 255), 0xF00);
    assert_eq!(pack_color(16, 32, 48), 0x321);
    assert_eq!(pack_color(15, 15, 15), 0);
    assert_eq!(pack_color(255, 255, 255), 0xFFF);
    assert_eq!(pack_color(0, 0, 65535), 0xFF00);
}

#[test]
fn parse_palette_skips_header_and_blank_lines() {
    let text = format!("{}255 128 0\n\n0 0 255\n", HEAD);
    assert_eq!(parse_palette(&text), Some(vec![0x8F, 0xF00]));
}

#[test]
fn parse_palette_header_only() {
    assert_eq!(parse_palette(HEAD), Some(vec![]));
    assert_eq!(parse_palette("a\nb"), Some(vec![]));
    assert_eq!(parse_palette(""), Some(vec![]));
}

#[test]
fn parse_palette_rejects_non_numeric() {
    let text = format!("{}255 x 0\n", HEAD);
    assert_eq!(parse_palette(&text), None);
}

#[test]
fn parse_palette_rejects_wrong_arity() {
    assert_eq!(parse_palette(&format!("{}255 0\n", HEAD)), None);
    assert_eq!(parse_palette(&format!("{}1 2 3 4\n", HEAD)), None);
    assert_eq!(parse_palette(&format!("{}1  2 3\n", HEAD)), None);
}

#[test]
fn parse_palette_rejects_out_of_range() {
    assert_eq!(parse_palette(&format!("{}65536 0 0\n", HEAD)), None);
    assert_eq!(parse_palette(&format!("{}65535 +16 0\n", HEAD)), Some(vec![0xFFF]));
}

#[test]
fn compile_empty_palette() {
    let out = compile(&config(&["empty"]), &vec![HEAD.to_string()]).ok().unwrap();
    assert!(out.data.is_empty());
    assert_eq!(
        out.source,
        "\n// ---- palettes ----\nconst unsigned short DATA_empty[] = {  };\n\
         struct PaletteResource RES_empty = { .data = &DATA_empty, .size = 0 };\n"
    );
    assert_eq!(
        out.header,
        "\n// ---- palettes ----\nextern struct PaletteResource RES_empty;\n"
    );
}

#[test]
fn compile_size_field_is_twice_the_colour_count() {
    let text = format!("{}255 128 0\n0 0 255\n16 32 48\n", HEAD);
    let out = compile(&config(&["sky"]), &vec![text]).ok().unwrap();
    assert_eq!(
        out.source,
        "\n// ---- palettes ----\nconst unsigned short DATA_sky[] = { 0x8f, 0xf00, 0x321,  };\n\
         struct PaletteResource RES_sky = { .data = &DATA_sky, .size = 6 };\n"
    );
}

#[test]
fn compile_keeps_manifest_order() {
    let out = compile(
        &config(&["b", "a"]),
        &vec![format!("{}0 0 0\n", HEAD), HEAD.to_string()],
    )
    .ok()
    .unwrap();
    assert_eq!(
        out.header,
        "\n// ---- palettes ----\nextern struct PaletteResource RES_b;\n\
         extern struct PaletteResource RES_a;\n"
    );
}

#[test]
fn compile_malformed_line_names_palette() {
    let r = compile(
        &config(&["good", "bad"]),
        &vec![format!("{}1 2 3\n", HEAD), format!("{}255 x 0\n", HEAD)],
    );
    match r {
        Err(e) => {
            let CompileError::PaletteParse { id } = &e;
            assert_eq!(id, "bad");
            assert_eq!(e.message(), "Failed to parse palette \"bad\"");
        }
        Ok(_) => panic!("a malformed palette compiled"),
    }
}
