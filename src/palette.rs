//! Palette compilation: a line-oriented colour table becomes a C array of
//! packed 16-bit colours and a `PaletteResource` descriptor.
use vstd::prelude::*;

use crate::text::{
    chars_of, dec_text, hex_text, parse_u16, parse_u16_spec, push_chars, push_radix, push_str,
    split_chars, split_spec, string_of, views,
};
use crate::resources::{CompileError, Output, ResConfig};

verus! {

/// The packed form of one colour: each channel shifted right by four, channel
/// 0 placed at bit 0, channel 1 at bit 4 and channel 2 at bit 8, combined by
/// bitwise or and kept to 16 bits. For 8-bit channels this is the top nibble
/// of each, in bits 0-3, 4-7 and 8-11.
pub open spec fn packed(r: u16, g: u16, b: u16) -> u16 {
    (r >> 4u16) | ((g >> 4u16) << 4u16) | ((b >> 4u16) << 8u16)
}

/// Packs three colour channels into one 16-bit value.
pub fn pack_color(r: u16, g: u16, b: u16) -> (c: u16)
    ensures
        c == packed(r, g, b),
{
    r >> 4 | g >> 4 << 4 | b >> 4 << 8
}

/// For channels in 8-bit range, packing keeps the top four bits of each
/// channel, as base-16 digits: `r/16 + 16*(g/16) + 256*(b/16)`.
pub proof fn lemma_packed_8bit(r: u16, g: u16, b: u16)
    requires
        r < 256,
        g < 256,
        b < 256,
    ensures
        packed(r, g, b) as int == r as int / 16 + 16 * (g as int / 16) + 256 * (b as int / 16),
{
    assert(packed(r, g, b) == r / 16 + 16 * (g / 16) + 256 * (b / 16)) by (bit_vector)
        requires
            r < 256,
            g < 256,
            b < 256,
    ;
}


/// One palette of the manifest: the C symbol suffix and the asset file,
/// relative to the resource root.
pub struct PaletteDef {
    pub id: String,
    pub path: String,
}

/// The colour of one data line: exactly three channels separated by single
/// spaces, each a `u16`; `None` for any other line.
pub open spec fn line_color(line: Seq<char>) -> Option<u16> {
    let f = split_spec(line, ' ');
    if f.len() == 3 && parse_u16_spec(f[0]) is Some && parse_u16_spec(f[1]) is Some
        && parse_u16_spec(f[2]) is Some {
        Some(
            packed(
                parse_u16_spec(f[0])->Some_0,
                parse_u16_spec(f[1])->Some_0,
                parse_u16_spec(f[2])->Some_0,
            ),
        )
    } else {
        None
    }
}

/// The colours of `lines` in order, blank lines skipped; `None` if any other
/// line is malformed.
pub open spec fn lines_colors(lines: Seq<Seq<char>>) -> Option<Seq<u16>>
    decreases lines.len(),
{
    if lines.len() == 0 {
        Some(Seq::<u16>::empty())
    } else {
        match lines_colors(lines.drop_last()) {
            None => None,
            Some(cs) => if lines.last().len() == 0 {
                Some(cs)
            } else {
                match line_color(lines.last()) {
                    None => None,
                    Some(c) => Some(cs.push(c)),
                }
            },
        }
    }
}

/// The colours of a palette asset: its first three lines are a format header
/// and are skipped, as are blank lines.
pub open spec fn palette_colors(text: Seq<char>) -> Option<Seq<u16>> {
    let lines = split_spec(text, '\n');
    if lines.len() <= 3 {
        Some(Seq::<u16>::empty())
    } else {
        lines_colors(lines.skip(3))
    }
}

/// Number of non-blank lines among `lines`.
pub open spec fn nonblank_count(lines: Seq<Seq<char>>) -> nat
    decreases lines.len(),
{
    if lines.len() == 0 {
        0
    } else {
        nonblank_count(lines.drop_last()) + if lines.last().len() == 0 {
            0nat
        } else {
            1nat
        }
    }
}

/// Number of data lines of a palette asset: the non-blank lines after the
/// three header lines.
pub open spec fn data_line_count(text: Seq<char>) -> nat {
    let lines = split_spec(text, '\n');
    if lines.len() <= 3 {
        0
    } else {
        nonblank_count(lines.skip(3))
    }
}

proof fn lemma_lines_colors_len(lines: Seq<Seq<char>>)
    requires
        lines_colors(lines) is Some,
    ensures
        lines_colors(lines)->Some_0.len() == nonblank_count(lines),
    decreases lines.len(),
{
    if lines.len() > 0 {
        lemma_lines_colors_len(lines.drop_last());
    }
}

/// A palette whose asset has `N` data lines, all well formed, gets one
/// colour per line, and its descriptor's size field is `2 * N`, the byte
/// length of the data.
pub proof fn lemma_size_field(id: Seq<char>, text: Seq<char>)
    requires
        palette_colors(text) is Some,
    ensures
        palette_colors(text)->Some_0.len() == data_line_count(text),
        palette_def(id, palette_colors(text)->Some_0) == "const unsigned short DATA_"@ + id
            + "[] = { "@ + color_list_text(palette_colors(text)->Some_0) + " };\n"@
            + "struct PaletteResource RES_"@ + id + " = { .data = &DATA_"@ + id + ", .size = "@
            + dec_text(2 * data_line_count(text)) + " };\n"@,
{
    let lines = split_spec(text, '\n');
    if lines.len() > 3 {
        lemma_lines_colors_len(lines.skip(3));
    }
}

/// An asset with no data lines is an empty palette, not an error.
pub proof fn lemma_empty_palette(id: Seq<char>, text: Seq<char>)
    requires
        data_line_count(text) == 0,
    ensures
        palette_colors(text) == Some(Seq::<u16>::empty()),
        palette_def(id, Seq::<u16>::empty()) == "const unsigned short DATA_"@ + id
            + "[] = {  };\n"@ + "struct PaletteResource RES_"@ + id + " = { .data = &DATA_"@
            + id + ", .size = 0 };\n"@,
{
    let lines = split_spec(text, '\n');
    if lines.len() > 3 {
        lemma_blank_lines(lines.skip(3));
    }
    reveal_with_fuel(crate::text::radix_text, 2);
    assert(dec_text(0) =~= "0"@) by {
        reveal_strlit("0");
    }
    assert("[] = { "@ + color_list_text(Seq::<u16>::empty()) + " };\n"@ =~= "[] = {  };\n"@) by {
        reveal_strlit("[] = { ");
        reveal_strlit(" };\n");
        reveal_strlit("[] = {  };\n");
    }
    assert(", .size = "@ + dec_text(0) + " };\n"@ =~= ", .size = 0 };\n"@) by {
        reveal_strlit(", .size = ");
        reveal_strlit(" };\n");
        reveal_strlit(", .size = 0 };\n");
    }
}

proof fn lemma_blank_lines(lines: Seq<Seq<char>>)
    requires
        nonblank_count(lines) == 0,
    ensures
        lines_colors(lines) == Some(Seq::<u16>::empty()),
    decreases lines.len(),
{
    if lines.len() > 0 {
        lemma_blank_lines(lines.drop_last());
    }
}

/// Reads the colours of a palette asset.
pub fn parse_palette(text: &str) -> (r: Option<Vec<u16>>)
    ensures
        match r {
            Some(v) => palette_colors(text@) == Some(v@),
            None => palette_colors(text@) is None,
        },
{
    let chars = chars_of(text);
    let lines = split_chars(&chars, '\n');
    let mut colors: Vec<u16> = Vec::new();
    if lines.len() <= 3 {
        return Some(colors);
    }
    let ghost all = views(lines@);
    let mut j: usize = 3;
    assert(all.subrange(3, 3) =~= Seq::<Seq<char>>::empty());
    while j < lines.len()
        invariant
            3 <= j <= lines.len(),
            all == views(lines@),
            all == split_spec(text@, '\n'),
            lines_colors(all.subrange(3, j as int)) == Some(colors@),
        decreases lines.len() - j,
    {
        let line = &lines[j];
        let ghost pre = all.subrange(3, j as int);
        let ghost next = all.subrange(3, j + 1);
        assert(next.drop_last() =~= pre);
        assert(next.last() == line@);
        j = j + 1;
        if line.len() == 0 {
            continue;
        }
        let fields = split_chars(line, ' ');
        if fields.len() != 3 {
            proof {
                lemma_malformed_prefix(all.skip(3), (j - 3) as int);
                assert(all.skip(3).subrange(0, j - 3) =~= next);
            }
            return None;
        }
        assert(views(fields@)[0] == fields[0]@);
        assert(views(fields@)[1] == fields[1]@);
        assert(views(fields@)[2] == fields[2]@);
        let r = parse_u16(&fields[0]);
        let g = parse_u16(&fields[1]);
        let b = parse_u16(&fields[2]);
        match (r, g, b) {
            (Some(r), Some(g), Some(b)) => {
                colors.push(pack_color(r, g, b));
            },
            _ => {
                proof {
                    lemma_malformed_prefix(all.skip(3), (j - 3) as int);
                    assert(all.skip(3).subrange(0, j - 3) =~= next);
                }
                return None;
            },
        }
    }
    assert(all.subrange(3, j as int) =~= all.skip(3));
    Some(colors)
}

/// A malformed line anywhere makes the whole table malformed.
proof fn lemma_malformed_prefix(lines: Seq<Seq<char>>, n: int)
    requires
        0 <= n <= lines.len(),
        lines_colors(lines.subrange(0, n)) is None,
    ensures
        lines_colors(lines) is None,
    decreases lines.len(),
{
    if n < lines.len() {
        assert(lines.drop_last().subrange(0, n) =~= lines.subrange(0, n));
        lemma_malformed_prefix(lines.drop_last(), n);
    } else {
        assert(lines.subrange(0, n) =~= lines);
    }
}

/// The array entries of `cs`: `0x<hex>, ` for each colour.
pub open spec fn color_list_text(cs: Seq<u16>) -> Seq<char>
    decreases cs.len(),
{
    if cs.len() == 0 {
        Seq::<char>::empty()
    } else {
        color_list_text(cs.drop_last()) + "0x"@ + hex_text(cs.last() as nat) + ", "@
    }
}

/// The header declaration of palette `id`'s descriptor.
pub open spec fn palette_decl(id: Seq<char>) -> Seq<char> {
    "extern struct PaletteResource RES_"@ + id + ";\n"@
}

/// The source definitions of palette `id` with colours `cs`: the data array,
/// then the descriptor, whose size is the byte length of the data.
pub open spec fn palette_def(id: Seq<char>, cs: Seq<u16>) -> Seq<char> {
    "const unsigned short DATA_"@ + id + "[] = { "@ + color_list_text(cs) + " };\n"@
        + "struct PaletteResource RES_"@ + id + " = { .data = &DATA_"@ + id + ", .size = "@
        + dec_text(2 * cs.len()) + " };\n"@
}

/// Appends the source definitions of palette `id` with colours `cs`.
pub fn push_palette_def(out: &mut Vec<char>, id: &Vec<char>, cs: &Vec<u16>)
    ensures
        final(out)@ == old(out)@ + palette_def(id@, cs@),
{
    push_str(out, "const unsigned short DATA_");
    push_chars(out, id);
    push_str(out, "[] = { ");
    let ghost before = out@;
    let mut i: usize = 0;
    while i < cs.len()
        invariant
            i <= cs.len(),
            out@ == before + color_list_text(cs@.take(i as int)),
        decreases cs.len() - i,
    {
        push_str(out, "0x");
        push_radix(out, cs[i] as u128, 16);
        push_str(out, ", ");
        assert(cs@.take(i + 1).drop_last() =~= cs@.take(i as int));
        i = i + 1;
        assert(out@ =~= before + color_list_text(cs@.take(i as int)));
    }
    assert(cs@.take(i as int) =~= cs@);
    push_str(out, " };\n");
    push_str(out, "struct PaletteResource RES_");
    push_chars(out, id);
    push_str(out, " = { .data = &DATA_");
    push_chars(out, id);
    push_str(out, ", .size = ");
    push_radix(out, 2 * (cs.len() as u128), 10);
    push_str(out, " };\n");
    assert(final(out)@ =~= old(out)@ + palette_def(id@, cs@));
}


/// The title line that opens the palette part of both text streams.
pub open spec fn palette_title() -> Seq<char> {
    "\n// ---- palettes ----\n"@
}

/// The header declarations of palettes `ids`, in manifest order.
pub open spec fn palette_decls(ids: Seq<Seq<char>>) -> Seq<char>
    decreases ids.len(),
{
    if ids.len() == 0 {
        Seq::<char>::empty()
    } else {
        palette_decls(ids.drop_last()) + palette_decl(ids.last())
    }
}

/// The source definitions of palettes `ids` with asset texts `texts`, in
/// manifest order, or the index of the first palette whose asset is malformed.
pub open spec fn palette_defs(ids: Seq<Seq<char>>, texts: Seq<Seq<char>>) -> Result<Seq<char>, nat>
    decreases texts.len(),
{
    if texts.len() == 0 {
        Ok(Seq::<char>::empty())
    } else {
        match palette_defs(ids.drop_last(), texts.drop_last()) {
            Err(k) => Err(k),
            Ok(s) => match palette_colors(texts.last()) {
                None => Err((texts.len() - 1) as nat),
                Some(cs) => Ok(s + palette_def(ids.last(), cs)),
            },
        }
    }
}

/// The ids of palettes `defs`, in order.
pub open spec fn def_ids(defs: Seq<PaletteDef>) -> Seq<Seq<char>> {
    defs.map_values(|d: PaletteDef| d.id@)
}

/// The texts that `v` holds, in order.
pub open spec fn string_views(v: Seq<String>) -> Seq<Seq<char>> {
    v.map_values(|s: String| s@)
}

/// Compiles every palette of the manifest, given the text of each one's
/// asset in the same order. Palettes add nothing to the binary container:
/// their colours live in the generated source as constant arrays.
pub fn compile(res_config: &ResConfig, assets: &Vec<String>) -> (r: Result<Output, CompileError>)
    requires
        assets.len() == res_config.palettes.len(),
    ensures
        match palette_defs(def_ids(res_config.palettes@), string_views(assets@)) {
            Ok(s) => r is Ok && r->Ok_0.data@ == Seq::<u8>::empty()
                && r->Ok_0.header@ == palette_title() + palette_decls(def_ids(res_config.palettes@))
                && r->Ok_0.source@ == palette_title() + s,
            Err(k) => r is Err && r->Err_0 is PaletteParse
                && r->Err_0->PaletteParse_id@ == res_config.palettes@[k as int].id@,
        },
{
    let ghost ids = def_ids(res_config.palettes@);
    let ghost texts = string_views(assets@);
    let mut header: Vec<char> = Vec::new();
    let mut source: Vec<char> = Vec::new();
    push_str(&mut header, "\n// ---- palettes ----\n");
    push_str(&mut source, "\n// ---- palettes ----\n");
    let mut i: usize = 0;
    assert(ids.take(0) =~= Seq::<Seq<char>>::empty());
    assert(texts.take(0) =~= Seq::<Seq<char>>::empty());
    assert(source@.skip(palette_title().len() as int) =~= Seq::<char>::empty());
    assert(source@.take(palette_title().len() as int) =~= palette_title());
    while i < assets.len()
        invariant
            i <= assets.len() == res_config.palettes.len(),
            ids == def_ids(res_config.palettes@),
            texts == string_views(assets@),
            header@ == palette_title() + palette_decls(ids.take(i as int)),
            palette_defs(ids.take(i as int), texts.take(i as int)) == Ok::<Seq<char>, nat>(
                source@.skip(palette_title().len() as int),
            ),
            source@.take(palette_title().len() as int) == palette_title(),
            source@.len() >= palette_title().len(),
        decreases assets.len() - i,
    {
        let def = &res_config.palettes[i];
        let id = chars_of(def.id.as_str());
        assert(ids.take(i + 1).drop_last() =~= ids.take(i as int));
        assert(texts.take(i + 1).drop_last() =~= texts.take(i as int));
        assert(ids.take(i + 1).last() == id@);
        assert(texts.take(i + 1).last() == assets[i as int]@);
        match parse_palette(assets[i].as_str()) {
            None => {
                proof {
                    lemma_defs_fail_prefix(ids, texts, (i + 1) as int);
                }
                return Err(CompileError::PaletteParse { id: def.id.clone() });
            },
            Some(cs) => {
                let ghost old_source = source@;
                push_palette_def(&mut source, &id, &cs);
                let ghost old_header = header@;
                push_str(&mut header, "extern struct PaletteResource RES_");
                push_chars(&mut header, &id);
                push_str(&mut header, ";\n");
                assert(header@ =~= old_header + palette_decl(id@));
                assert(source@.skip(palette_title().len() as int) =~= old_source.skip(
                    palette_title().len() as int,
                ) + palette_def(id@, cs@));
                assert(source@.take(palette_title().len() as int) =~= old_source.take(
                    palette_title().len() as int,
                ));
            },
        }
        i = i + 1;
    }
    assert(ids.take(i as int) =~= ids);
    assert(texts.take(i as int) =~= texts);
    assert(source@ =~= palette_title() + source@.skip(palette_title().len() as int));
    Ok(Output { data: Vec::new(), header: string_of(&header), source: string_of(&source) })
}

/// A malformed asset stops the palettes after it from being compiled.
proof fn lemma_defs_fail_prefix(ids: Seq<Seq<char>>, texts: Seq<Seq<char>>, n: int)
    requires
        0 <= n <= texts.len(),
        ids.len() == texts.len(),
        palette_defs(ids.take(n), texts.take(n)) is Err,
    ensures
        palette_defs(ids, texts) == palette_defs(ids.take(n), texts.take(n)),
    decreases texts.len(),
{
    if n < texts.len() {
        assert(ids.drop_last().take(n) =~= ids.take(n));
        assert(texts.drop_last().take(n) =~= texts.take(n));
        lemma_defs_fail_prefix(ids.drop_last(), texts.drop_last(), n);
    } else {
        assert(ids.take(n) =~= ids);
        assert(texts.take(n) =~= texts);
    }
}

} // verus!
