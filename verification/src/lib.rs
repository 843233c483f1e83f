//! Extraction of structured metadata (title, group, resolution, season,
//! episode, and so on) from media filenames and paths.
//!
//! The core is a segment store ([`rope::Rope`]): an ordered sequence of byte
//! fragments that partition the input text, each either free or claimed.  An
//! ordered cascade of patterns claims the ranges it recognises; the title is
//! picked from whatever text was never claimed.

pub mod cascade;
pub mod num;
pub mod paths;
pub mod pattern;
pub mod rope;
pub mod title;

use vstd::prelude::*;
use vstd::string::*;

use crate::cascade::{parse_pattern, scan, step_parts, step_value};
use crate::num::{num_value, parse_u32};
use crate::paths::{assemble_path, initial_store, normal_components};
use crate::pattern::{regex_valid, Pattern};
use crate::rope::{cat, flags, PartModel, Rope};
use crate::title::{resolve_title, title_model};

verus! {

/// The extraction result: one optional field per recognised category, plus
/// the optional title.  Text fields hold the captured bytes of the input.
#[derive(Debug, Clone)]
pub struct MediaInfo {
    pub title: Option<Vec<u8>>,
    pub group: Option<Vec<u8>>,
    pub resolution: Option<Vec<u8>>,
    pub season: Option<u32>,
    pub episode: Option<u32>,
    pub source: Option<Vec<u8>>,
    pub year: Option<u32>,
    pub codec: Option<Vec<u8>>,
    pub audio: Option<Vec<u8>>,
    pub extension: Option<Vec<u8>>,
    pub checksum: Option<Vec<u8>>,
    pub scene: Option<Vec<u8>>,
    pub subs: Option<Vec<u8>>,
    pub region: Option<Vec<u8>>,
}

/// The mathematical value of a [`MediaInfo`].
pub ghost struct MediaInfoModel {
    pub title: Option<Seq<u8>>,
    pub group: Option<Seq<u8>>,
    pub resolution: Option<Seq<u8>>,
    pub season: Option<u32>,
    pub episode: Option<u32>,
    pub source: Option<Seq<u8>>,
    pub year: Option<u32>,
    pub codec: Option<Seq<u8>>,
    pub audio: Option<Seq<u8>>,
    pub extension: Option<Seq<u8>>,
    pub checksum: Option<Seq<u8>>,
    pub scene: Option<Seq<u8>>,
    pub subs: Option<Seq<u8>>,
    pub region: Option<Seq<u8>>,
}

/// The bytes held by an optional text field.
pub open spec fn opt_view(o: Option<Vec<u8>>) -> Option<Seq<u8>> {
    match o {
        Some(v) => Some(v@),
        None => None,
    }
}

impl View for MediaInfo {
    type V = MediaInfoModel;

    open spec fn view(&self) -> MediaInfoModel {
        MediaInfoModel {
            title: opt_view(self.title),
            group: opt_view(self.group),
            resolution: opt_view(self.resolution),
            season: self.season,
            episode: self.episode,
            source: opt_view(self.source),
            year: self.year,
            codec: opt_view(self.codec),
            audio: opt_view(self.audio),
            extension: opt_view(self.extension),
            checksum: opt_view(self.checksum),
            scene: opt_view(self.scene),
            subs: opt_view(self.subs),
            region: opt_view(self.region),
        }
    }
}

pub open spec fn extension_src() -> Seq<char> {
    "\\.([A-Za-z0-9]{2,4})$"@
}

pub open spec fn checksum_src() -> Seq<char> {
    "\\[([0-9A-F]{8})\\]"@
}

pub open spec fn source_src() -> Seq<char> {
    "((?i)(?:PPV.)?[HP]DTV|(?:HD)?CAM|BRRIP|[^a-z]TS[^a-z]|(?:PPV )?WEB.?DL(?: DVDRip)?|HDRip|DVDRip|CamRip|W[EB]BRip|BluRay|BD|DVD|DvDScr|hdtv)"@
}

pub open spec fn codec_src() -> Seq<char> {
    "((?i)xvid|x264|h\\.?264)"@
}

pub open spec fn audio_src() -> Seq<char> {
    "((?i)MP3|DD5\\.?1|Dual[- ]Audio|LiNE|DTS|AAC(?:\\.?2\\.0)?|AC3(?:\\.5\\.1)?)"@
}

pub open spec fn resolution_src() -> Seq<char> {
    "([0-9]{3,4}p|[0-9]{3,4}x[0-9]{3,4})"@
}

pub open spec fn group_src() -> Seq<char> {
    "(?:^\\[([^]]+)\\]|- ?([^-]+)$)"@
}

pub open spec fn season_src() -> Seq<char> {
    "(?i:s|season.)([0-9]{1,2})"@
}

pub open spec fn year_src() -> Seq<char> {
    "((19[0-9]|20[01])[0-9])"@
}

pub open spec fn episode_src() -> Seq<char> {
    "(?:[eE]([0-9]{2,3})|[^0-9A-Za-z]([0-9]{2,3})(?:v[0-9])?[^0-9A-Za-z])"@
}

pub open spec fn scene_src() -> Seq<char> {
    "(PROPER|DIGITALLY|REMASTERED|RATED|UNRATED|FESTIVAL|LIMITED|INTERNAL|REPACK|EXTENDED|RECODE|RERIP|READNFO|STV|SE|DC|DL|FS|WS)"@
}

pub open spec fn subs_src() -> Seq<char> {
    "((?i)CUSTOM.SUBBED|SUBBED|UNSUBBED)"@
}

pub open spec fn region_src() -> Seq<char> {
    "((?i)R1|R2|R3|R4|R5|R6)"@
}

/// The numeric reading of an optionally captured text.
pub open spec fn numeric_of(v: Option<Seq<u8>>) -> Option<u32> {
    match v {
        Some(s) => num_value(s),
        None => None,
    }
}

/// What parsing yields from an initial store: the thirteen patterns run in
/// their fixed priority order, each claiming the range of its first match,
/// and the title is read off the final store.
pub open spec fn parse_model(parts0: Seq<PartModel>) -> MediaInfoModel {
    let extension = step_value(parts0, extension_src());
    let p1 = step_parts(parts0, extension_src());
    let checksum = step_value(p1, checksum_src());
    let p2 = step_parts(p1, checksum_src());
    let source_v = step_value(p2, source_src());
    let p3 = step_parts(p2, source_src());
    let codec = step_value(p3, codec_src());
    let p4 = step_parts(p3, codec_src());
    let audio = step_value(p4, audio_src());
    let p5 = step_parts(p4, audio_src());
    let resolution = step_value(p5, resolution_src());
    let p6 = step_parts(p5, resolution_src());
    let group = step_value(p6, group_src());
    let p7 = step_parts(p6, group_src());
    let season = step_value(p7, season_src());
    let p8 = step_parts(p7, season_src());
    let year = step_value(p8, year_src());
    let p9 = step_parts(p8, year_src());
    let episode = step_value(p9, episode_src());
    let p10 = step_parts(p9, episode_src());
    let scene = step_value(p10, scene_src());
    let p11 = step_parts(p10, scene_src());
    let subs = step_value(p11, subs_src());
    let p12 = step_parts(p11, subs_src());
    let region = step_value(p12, region_src());
    let p13 = step_parts(p12, region_src());
    MediaInfoModel {
        title: title_model(p13),
        group,
        resolution,
        season: numeric_of(season),
        episode: numeric_of(episode),
        source: source_v,
        year: numeric_of(year),
        codec,
        audio,
        extension,
        checksum,
        scene,
        subs,
        region,
    }
}

/// One cascade step: compiles the pattern text and applies it to the store.
/// A pattern text that does not compile leaves the store unchanged.
fn apply(rope: &mut Rope, src: &str) -> (r: Option<Vec<u8>>)
    ensures
        final(rope)@ == step_parts(old(rope)@, src@),
        match r {
            Some(v) => step_value(old(rope)@, src@) == Some(v@),
            None => step_value(old(rope)@, src@) is None,
        },
{
    match Pattern::compile(src) {
        Some(p) => parse_pattern(rope, &p),
        None => None,
    }
}

/// One cascade step whose captured text is then read as a number.
fn apply_numeric(rope: &mut Rope, src: &str) -> (r: Option<u32>)
    ensures
        final(rope)@ == step_parts(old(rope)@, src@),
        r == numeric_of(step_value(old(rope)@, src@)),
{
    match apply(rope, src) {
        Some(v) => parse_u32(&v),
        None => None,
    }
}

/// Runs the cascade over the store and assembles the result record.
fn parse_rope(rope: Rope) -> (r: MediaInfo)
    ensures
        r@ == parse_model(rope@),
{
    let mut rope = rope;
    let extension = apply(&mut rope, "\\.([A-Za-z0-9]{2,4})$");
    let checksum = apply(&mut rope, "\\[([0-9A-F]{8})\\]");
    let source_v = apply(
        &mut rope,
        "((?i)(?:PPV.)?[HP]DTV|(?:HD)?CAM|BRRIP|[^a-z]TS[^a-z]|(?:PPV )?WEB.?DL(?: DVDRip)?|HDRip|DVDRip|CamRip|W[EB]BRip|BluRay|BD|DVD|DvDScr|hdtv)",
    );
    let codec = apply(&mut rope, "((?i)xvid|x264|h\\.?264)");
    let audio = apply(
        &mut rope,
        "((?i)MP3|DD5\\.?1|Dual[- ]Audio|LiNE|DTS|AAC(?:\\.?2\\.0)?|AC3(?:\\.5\\.1)?)",
    );
    let resolution = apply(&mut rope, "([0-9]{3,4}p|[0-9]{3,4}x[0-9]{3,4})");
    let group = apply(&mut rope, "(?:^\\[([^]]+)\\]|- ?([^-]+)$)");
    let season = apply_numeric(&mut rope, "(?i:s|season.)([0-9]{1,2})");
    let year = apply_numeric(&mut rope, "((19[0-9]|20[01])[0-9])");
    let episode = apply_numeric(
        &mut rope,
        "(?:[eE]([0-9]{2,3})|[^0-9A-Za-z]([0-9]{2,3})(?:v[0-9])?[^0-9A-Za-z])",
    );
    let scene = apply(
        &mut rope,
        "(PROPER|DIGITALLY|REMASTERED|RATED|UNRATED|FESTIVAL|LIMITED|INTERNAL|REPACK|EXTENDED|RECODE|RERIP|READNFO|STV|SE|DC|DL|FS|WS)",
    );
    let subs = apply(&mut rope, "((?i)CUSTOM.SUBBED|SUBBED|UNSUBBED)");
    let region = apply(&mut rope, "((?i)R1|R2|R3|R4|R5|R6)");
    let title = resolve_title(&rope);
    MediaInfo {
        title,
        group,
        resolution,
        season,
        episode,
        source: source_v,
        year,
        codec,
        audio,
        extension,
        checksum,
        scene,
        subs,
        region,
    }
}

/// Parses a filename: the whole string is one initial free fragment.  A
/// title is always present, possibly empty after trimming.
pub fn parse_filename(filename: &str) -> (r: MediaInfo)
    ensures
        r@ == parse_model(seq![(PartModel { bytes: filename.spec_bytes(), marked: false })]),
        r@.title is Some,
{
    let bytes = vstd::slice::slice_to_vec(filename.as_bytes());
    let rope = Rope::new(bytes);
    proof {
        assert(0 <= 0 < rope@.len() && !rope@[0].marked);
        lemma_parse_model_title(rope@);
    }
    parse_rope(rope)
}

/// Parses a path: each normal component — neither empty, nor `.`, nor
/// `..` — is one initial free fragment, in order.  A title is present
/// whenever the path has at least one such component.
pub fn parse_path(path: &str) -> (r: MediaInfo)
    ensures
        r@ == parse_model(initial_store(normal_components(path.spec_bytes()))),
        normal_components(path.spec_bytes()).len() > 0 ==> r@.title is Some,
{
    let rope = assemble_path(path.as_bytes());
    proof {
        if normal_components(path.spec_bytes()).len() > 0 {
            assert(0 <= 0 < rope@.len() && !rope@[0].marked);
            lemma_parse_model_title(rope@);
        }
    }
    parse_rope(rope)
}

/// The store after running any sequence of cascade steps, one pattern text
/// after another.
pub open spec fn run_steps(parts: Seq<PartModel>, pats: Seq<Seq<char>>) -> Seq<PartModel>
    decreases pats.len(),
{
    if pats.len() == 0 {
        parts
    } else {
        run_steps(step_parts(parts, pats[0]), pats.drop_first())
    }
}

/// A scan that found a match found it at a part of the store.
pub proof fn lemma_scan_some_bounds(parts: Seq<PartModel>, pat: Seq<char>)
    requires
        scan(parts, pat) is Some,
    ensures
        0 <= scan(parts, pat)->Some_0.0 < parts.len(),
    decreases parts.len(),
{
    if parts.len() > 0 {
        if crate::pattern::regex_find(pat, parts[0].bytes) is Some {
        } else {
            lemma_scan_some_bounds(parts.drop_first(), pat);
        }
    }
}

/// One cascade step keeps the partition: the concatenated text does not
/// change, and no claimed byte becomes free again.
pub proof fn lemma_step_partition(parts: Seq<PartModel>, pat: Seq<char>)
    ensures
        cat(step_parts(parts, pat)) == cat(parts),
        flags(step_parts(parts, pat)).len() == flags(parts).len(),
        forall|j: int|
            0 <= j < flags(parts).len() && flags(parts)[j] ==> flags(step_parts(parts, pat))[j],
{
    if regex_valid(pat) && scan(parts, pat) is Some {
        lemma_scan_some_bounds(parts, pat);
        let (i, m) = scan(parts, pat)->Some_0;
        if m.0 <= m.1 <= parts[i].bytes.len() {
            crate::rope::lemma_mark_range_model_preserves(parts, i, m.0 as int, m.1 as int);
        }
    }
}

/// The partition invariant and the no-re-claim law, for every store and
/// every sequence of cascade steps: the concatenation of all parts always
/// reproduces the text the store began with, and a byte once claimed stays
/// claimed.
pub proof fn lemma_run_steps_partition(parts: Seq<PartModel>, pats: Seq<Seq<char>>)
    ensures
        cat(run_steps(parts, pats)) == cat(parts),
        flags(run_steps(parts, pats)).len() == flags(parts).len(),
        forall|j: int|
            0 <= j < flags(parts).len() && flags(parts)[j] ==> flags(run_steps(parts, pats))[j],
    decreases pats.len(),
{
    if pats.len() > 0 {
        lemma_step_partition(parts, pats[0]);
        lemma_run_steps_partition(step_parts(parts, pats[0]), pats.drop_first());
    }
}

/// Whether some part of the store is still free.
pub open spec fn has_free(parts: Seq<PartModel>) -> bool {
    exists|j: int| 0 <= j < parts.len() && !parts[j].marked
}

/// A cascade step never claims everything: a claim splits its part and
/// marks only the middle piece, so a store with a free part keeps one.
pub proof fn lemma_step_free(parts: Seq<PartModel>, pat: Seq<char>)
    requires
        has_free(parts),
    ensures
        has_free(step_parts(parts, pat)),
{
    if regex_valid(pat) && scan(parts, pat) is Some {
        lemma_scan_some_bounds(parts, pat);
        let (i, m) = scan(parts, pat)->Some_0;
        if m.0 <= m.1 <= parts[i].bytes.len() {
            let s = m.0 as int;
            let e = m.1 as int;
            let s1 = crate::rope::split_model(parts, i, s);
            let s2 = crate::rope::split_model(s1, i + 1, e - s);
            crate::rope::lemma_split_model_shape(parts, i, s);
            crate::rope::lemma_split_model_shape(s1, i + 1, e - s);
            let j = choose|j: int| 0 <= j < parts.len() && !parts[j].marked;
            if j < i {
                assert(!s2[j].marked);
                assert(!crate::rope::mark_model(s2, i + 1)[j].marked);
            } else if j == i {
                assert(!s1[i].marked);
                assert(!s2[i].marked);
                assert(!crate::rope::mark_model(s2, i + 1)[i].marked);
            } else {
                assert(!s1[j + 1].marked);
                assert(!s2[j + 2].marked);
                assert(!crate::rope::mark_model(s2, i + 1)[j + 2].marked);
            }
        }
    }
}

/// A store with a free part yields a title.
pub proof fn lemma_title_from_free(parts: Seq<PartModel>)
    requires
        has_free(parts),
    ensures
        title_model(parts) is Some,
{
    let j = choose|j: int| 0 <= j < parts.len() && !parts[j].marked;
    parts.lemma_filter_contains(|pm: PartModel| !pm.marked, j);
    assert(crate::rope::free_parts(parts).contains(parts[j]));
    assert(crate::rope::free_parts(parts).len() > 0);
}

/// A store with a free part yields a parse whose title is present — the
/// title is absent only on an empty partition.
pub proof fn lemma_parse_model_title(parts: Seq<PartModel>)
    requires
        has_free(parts),
    ensures
        parse_model(parts).title is Some,
{
    let p1 = step_parts(parts, extension_src());
    lemma_step_free(parts, extension_src());
    let p2 = step_parts(p1, checksum_src());
    lemma_step_free(p1, checksum_src());
    let p3 = step_parts(p2, source_src());
    lemma_step_free(p2, source_src());
    let p4 = step_parts(p3, codec_src());
    lemma_step_free(p3, codec_src());
    let p5 = step_parts(p4, audio_src());
    lemma_step_free(p4, audio_src());
    let p6 = step_parts(p5, resolution_src());
    lemma_step_free(p5, resolution_src());
    let p7 = step_parts(p6, group_src());
    lemma_step_free(p6, group_src());
    let p8 = step_parts(p7, season_src());
    lemma_step_free(p7, season_src());
    let p9 = step_parts(p8, year_src());
    lemma_step_free(p8, year_src());
    let p10 = step_parts(p9, episode_src());
    lemma_step_free(p9, episode_src());
    let p11 = step_parts(p10, scene_src());
    lemma_step_free(p10, scene_src());
    let p12 = step_parts(p11, subs_src());
    lemma_step_free(p11, subs_src());
    let p13 = step_parts(p12, region_src());
    lemma_step_free(p12, region_src());
    lemma_title_from_free(p13);
}

/// Parsing is deterministic: two results read off the same initial store
/// are equal, byte for byte.
pub proof fn lemma_parse_deterministic(
    a: MediaInfoModel,
    b: MediaInfoModel,
    parts: Seq<PartModel>,
)
    requires
        a == parse_model(parts),
        b == parse_model(parts),
    ensures
        a == b,
{
}

} // verus!
