//! The manifest, the outputs of a compile run, and the orchestration that
//! runs the per-kind compilers in their fixed order.
use vstd::prelude::*;

use crate::container::{container_bytes, lemma_container_framing, le_value, magic, Container, HEADER_LEN};
use crate::palette::{
    compile, def_ids, palette_decls, palette_defs, palette_title, string_views, PaletteDef,
};
use crate::text::{push_str, string_of};

verus! {

/// The palette part of the resource manifest, in listing order.
pub struct ResConfig {
    pub palettes: Vec<PaletteDef>,
}

/// What a compiler stage, or a whole run, produces: bytes for the binary
/// container and text for the C header and source.
pub struct Output {
    pub data: Vec<u8>,
    pub header: String,
    pub source: String,
}

impl View for Output {
    type V = (Seq<u8>, Seq<char>, Seq<char>);

    open spec fn view(&self) -> (Seq<u8>, Seq<char>, Seq<char>) {
        (self.data@, self.header@, self.source@)
    }
}

/// Why a run failed.
pub enum CompileError {
    /// A palette asset has a line that is not three `u16` channels; `id`
    /// names the palette.
    PaletteParse { id: String },
}

impl CompileError {
    /// The message the error is reported with.
    pub fn message(&self) -> (m: String)
        ensures
            m@ == (match self {
                CompileError::PaletteParse { id } => "Failed to parse palette \""@ + id@ + "\""@,
            }),
    {
        let mut m: Vec<char> = Vec::new();
        match self {
            CompileError::PaletteParse { id } => {
                push_str(&mut m, "Failed to parse palette \"");
                push_str(&mut m, id.as_str());
                push_str(&mut m, "\"");
            },
        }
        string_of(&m)
    }
}


/// The identical banner that opens both text streams.
pub open spec fn banner() -> Seq<char> {
    "// AUTOMATICALLY GENERATED BY ANDES SDK. MODIFYING NOT RECOMMENDED.\n\n"@
}

/// The start of the header stream, before any compiler writes to it.
pub open spec fn header_preamble() -> Seq<char> {
    banner() + "#pragma once\n\n#include <andes_res_types.h>\n\n"@
}

/// The start of the source stream, before any compiler writes to it.
pub open spec fn source_preamble() -> Seq<char> {
    banner() + "#include <andes_resources.h>\n\n"@
}

/// What a run produces from the palettes `defs` with asset texts `texts` and
/// the outputs of the rawdata, sprite-set and tile-set compilers: the
/// container, the header and the source, each stream holding the stages in
/// that fixed order; or the id of the first palette whose asset is malformed.
pub open spec fn run_result(
    defs: Seq<PaletteDef>,
    texts: Seq<Seq<char>>,
    rawdata: (Seq<u8>, Seq<char>, Seq<char>),
    sprites: (Seq<u8>, Seq<char>, Seq<char>),
    tilesets: (Seq<u8>, Seq<char>, Seq<char>),
) -> Result<(Seq<u8>, Seq<char>, Seq<char>), Seq<char>> {
    let ids = def_ids(defs);
    match palette_defs(ids, texts) {
        Err(k) => Err(ids[k as int]),
        Ok(s) => Ok(
            (
                container_bytes(rawdata.0 + sprites.0 + tilesets.0),
                header_preamble() + palette_title() + palette_decls(ids) + rawdata.1 + sprites.1
                    + tilesets.1,
                source_preamble() + palette_title() + s + rawdata.2 + sprites.2 + tilesets.2,
            ),
        ),
    }
}

/// A run's result as values: the three outputs, or the id that an error names.
pub open spec fn result_view(r: Result<Output, CompileError>) -> Result<
    (Seq<u8>, Seq<char>, Seq<char>),
    Seq<char>,
> {
    match r {
        Ok(o) => Ok(o@),
        Err(CompileError::PaletteParse { id }) => Err(id@),
    }
}

/// Runs one compile pass: writes the container preamble and the text
/// preambles, runs the palette compiler, appends what the rawdata, sprite-set
/// and tile-set compilers produced, in that order, and patches the
/// container's length field. `palette_assets[i]` is the text of the asset of
/// the `i`-th palette.
pub fn compile_all(
    res_config: &ResConfig,
    palette_assets: &Vec<String>,
    rawdata: &Output,
    sprites: &Output,
    tilesets: &Output,
) -> (r: Result<Output, CompileError>)
    requires
        palette_assets.len() == res_config.palettes.len(),
        HEADER_LEN + rawdata.data.len() + sprites.data.len() + tilesets.data.len() <= usize::MAX,
    ensures
        result_view(r) == run_result(
            res_config.palettes@,
            string_views(palette_assets@),
            rawdata@,
            sprites@,
            tilesets@,
        ),
{
    let ghost ids = def_ids(res_config.palettes@);
    let ghost texts = string_views(palette_assets@);
    let mut data = Container::new();
    let mut header: Vec<char> = Vec::new();
    let mut source: Vec<char> = Vec::new();
    push_str(&mut header, "// AUTOMATICALLY GENERATED BY ANDES SDK. MODIFYING NOT RECOMMENDED.\n\n");
    push_str(&mut source, "// AUTOMATICALLY GENERATED BY ANDES SDK. MODIFYING NOT RECOMMENDED.\n\n");
    push_str(&mut header, "#pragma once\n\n#include <andes_res_types.h>\n\n");
    push_str(&mut source, "#include <andes_resources.h>\n\n");
    let palettes = match compile(res_config, palette_assets) {
        Ok(o) => o,
        Err(e) => {
            proof {
                lemma_defs_err_index(ids, texts);
            }
            return Err(e);
        },
    };
    let stages = [&palettes, rawdata, sprites, tilesets];
    let mut k: usize = 0;
    let ghost start_header = header@;
    let ghost start_source = source@;
    let ghost stage_views = seq![palettes@, rawdata@, sprites@, tilesets@];
    while k < 4
        invariant
            k <= 4,
            stages@ == seq![&palettes, rawdata, sprites, tilesets],
            stage_views == seq![palettes@, rawdata@, sprites@, tilesets@],
            palettes.data@ == Seq::<u8>::empty(),
            HEADER_LEN + rawdata.data.len() + sprites.data.len() + tilesets.data.len() <= usize::MAX,
            data.wf(),
            data@ == stage_data(stage_views.take(k as int)),
            header@ == start_header + stage_header(stage_views.take(k as int)),
            source@ == start_source + stage_source(stage_views.take(k as int)),
        decreases 4 - k,
    {
        let stage = stages[k];
        assert(stage_views.take(k + 1).drop_last() =~= stage_views.take(k as int));
        proof {
            lemma_stage_data_len(stage_views, k as int);
        }
        data.append(&stage.data);
        push_str(&mut header, stage.header.as_str());
        push_str(&mut source, stage.source.as_str());
        k = k + 1;
        assert(header@ =~= start_header + stage_header(stage_views.take(k as int)));
        assert(source@ =~= start_source + stage_source(stage_views.take(k as int)));
    }
    assert(stage_views.take(4) =~= stage_views);
    proof {
        lemma_four_stages(stage_views);
    }
    assert(data@ =~= rawdata.data@ + sprites.data@ + tilesets.data@);
    assert(header@ =~= header_preamble() + palette_title() + palette_decls(ids) + rawdata.header@
        + sprites.header@ + tilesets.header@);
    assert(source@ =~= source_preamble() + palettes.source@ + rawdata.source@ + sprites.source@
        + tilesets.source@);
    assert(palette_defs(ids, texts) is Ok);
    assert(source@ =~= source_preamble() + palette_title() + palette_defs(ids, texts)->Ok_0
        + rawdata.source@ + sprites.source@ + tilesets.source@);
    Ok(Output { data: data.finish(), header: string_of(&header), source: string_of(&source) })
}

/// Compiling the same manifest, assets and stage outputs twice gives the
/// same result: byte-identical outputs, or the same error.
pub proof fn lemma_compile_idempotent(
    res_config: &ResConfig,
    palette_assets: &Vec<String>,
    rawdata: &Output,
    sprites: &Output,
    tilesets: &Output,
    first: Result<Output, CompileError>,
    second: Result<Output, CompileError>,
)
    requires
        result_view(first) == run_result(
            res_config.palettes@,
            string_views(palette_assets@),
            rawdata@,
            sprites@,
            tilesets@,
        ),
        result_view(second) == run_result(
            res_config.palettes@,
            string_views(palette_assets@),
            rawdata@,
            sprites@,
            tilesets@,
        ),
    ensures
        result_view(first) == result_view(second),
{
}

/// Every successful run's container starts with the magic, and its
/// little-endian length field equals the container's total length.
pub proof fn lemma_run_framing(
    defs: Seq<PaletteDef>,
    texts: Seq<Seq<char>>,
    rawdata: (Seq<u8>, Seq<char>, Seq<char>),
    sprites: (Seq<u8>, Seq<char>, Seq<char>),
    tilesets: (Seq<u8>, Seq<char>, Seq<char>),
)
    requires
        run_result(defs, texts, rawdata, sprites, tilesets) is Ok,
        HEADER_LEN + rawdata.0.len() + sprites.0.len() + tilesets.0.len() <= u64::MAX,
    ensures
        ({
            let data = run_result(defs, texts, rawdata, sprites, tilesets)->Ok_0.0;
            &&& data.subrange(0, 10) == magic()
            &&& le_value(data.subrange(10, 18)) == data.len()
        }),
{
    lemma_container_framing(rawdata.0 + sprites.0 + tilesets.0);
}

/// The container bytes of stages `v`, in order.
pub open spec fn stage_data(v: Seq<(Seq<u8>, Seq<char>, Seq<char>)>) -> Seq<u8>
    decreases v.len(),
{
    if v.len() == 0 {
        Seq::<u8>::empty()
    } else {
        stage_data(v.drop_last()) + v.last().0
    }
}

/// The header text of stages `v`, in order.
pub open spec fn stage_header(v: Seq<(Seq<u8>, Seq<char>, Seq<char>)>) -> Seq<char>
    decreases v.len(),
{
    if v.len() == 0 {
        Seq::<char>::empty()
    } else {
        stage_header(v.drop_last()) + v.last().1
    }
}

/// The source text of stages `v`, in order.
pub open spec fn stage_source(v: Seq<(Seq<u8>, Seq<char>, Seq<char>)>) -> Seq<char>
    decreases v.len(),
{
    if v.len() == 0 {
        Seq::<char>::empty()
    } else {
        stage_source(v.drop_last()) + v.last().2
    }
}

proof fn lemma_stage_data_len(v: Seq<(Seq<u8>, Seq<char>, Seq<char>)>, k: int)
    requires
        0 <= k < v.len() == 4,
        v[0].0.len() == 0,
        HEADER_LEN + v[1].0.len() + v[2].0.len() + v[3].0.len() <= usize::MAX,
    ensures
        HEADER_LEN + stage_data(v.take(k)).len() + v[k].0.len() <= usize::MAX,
{
    reveal_with_fuel(stage_data, 5);
    assert(v.take(0).len() == 0);
    assert(v.take(1).drop_last() =~= v.take(0));
    assert(v.take(2).drop_last() =~= v.take(1));
    assert(v.take(3).drop_last() =~= v.take(2));
}

proof fn lemma_four_stages(v: Seq<(Seq<u8>, Seq<char>, Seq<char>)>)
    requires
        v.len() == 4,
    ensures
        stage_data(v) == v[0].0 + v[1].0 + v[2].0 + v[3].0,
        stage_header(v) == v[0].1 + v[1].1 + v[2].1 + v[3].1,
        stage_source(v) == v[0].2 + v[1].2 + v[2].2 + v[3].2,
{
    reveal_with_fuel(stage_data, 5);
    reveal_with_fuel(stage_header, 5);
    reveal_with_fuel(stage_source, 5);
    assert(v.drop_last().drop_last().drop_last().drop_last().len() == 0);
    assert(stage_data(v) =~= v[0].0 + v[1].0 + v[2].0 + v[3].0);
    assert(stage_header(v) =~= v[0].1 + v[1].1 + v[2].1 + v[3].1);
    assert(stage_source(v) =~= v[0].2 + v[1].2 + v[2].2 + v[3].2);
}

/// A palette that fails to compile is one of the manifest's.
proof fn lemma_defs_err_index(ids: Seq<Seq<char>>, texts: Seq<Seq<char>>)
    ensures
        palette_defs(ids, texts) is Err ==> palette_defs(ids, texts)->Err_0 < texts.len(),
    decreases texts.len(),
{
    if texts.len() > 0 {
        lemma_defs_err_index(ids.drop_last(), texts.drop_last());
    }
}

} // verus!
