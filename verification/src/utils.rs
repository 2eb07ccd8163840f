//! Recognising media files, naming conversion outputs, and deciding what to do with a
//! file that appears in a watched folder.

use vstd::prelude::*;
use crate::config::{Config, Portal};
use crate::paths::{
    final_dot, lemma_final_dot_at, lemma_final_dot_bounds, name_extension, extension_of, file_name, join, name_stem, path_extension, path_file_name, path_joined,
    path_starts_with, starts_with, stem_of,
};
use crate::text::{
    ascii_lower, is_ascii_char, lemma_infix_ending_in_dot, contains_text, has_infix, lowercase, opt_text, owned_words, same_text, split_words,
    text_lowercase, texts, words,
};

verus! {

/// The lowercase extensions of the video, audio and image formats that are converted.
pub open spec fn media_extensions() -> Seq<Seq<char>> {
    seq![
        "mp4"@, "mov"@, "mkv"@, "avi"@, "flv"@, "wmv"@, "webm"@, "mpg"@, "mpeg"@, "m4v"@,
        "ts"@, "ogv"@, "rm"@, "3gp"@, "3g2"@, "dv"@, "vob"@, "mts"@, "m2ts"@, "f4v"@, "f4p"@,
        "f4a"@, "f4b"@, "gif"@, "mj2"@, "nut"@,
        "mp3"@, "wav"@, "flac"@, "aac"@, "ogg"@, "m4a"@, "wma"@, "ac3"@, "alac"@, "opus"@,
        "amr"@, "au"@,
        "jpg"@, "jpeg"@, "png"@, "bmp"@, "tiff"@, "tif"@, "webp"@, "exr"@,
    ]
}

/// Whether `ext` is one of the media extensions (compared exactly, so lowercase only).
pub fn is_media_extension(ext: &str) -> (res: bool)
    ensures
        res == media_extensions().contains(ext@),
{
    let exts: Vec<&str> = vec![
        "mp4", "mov", "mkv", "avi", "flv", "wmv", "webm", "mpg", "mpeg", "m4v",
        "ts", "ogv", "rm", "3gp", "3g2", "dv", "vob", "mts", "m2ts", "f4v", "f4p",
        "f4a", "f4b", "gif", "mj2", "nut",
        "mp3", "wav", "flac", "aac", "ogg", "m4a", "wma", "ac3", "alac", "opus",
        "amr", "au",
        "jpg", "jpeg", "png", "bmp", "tiff", "tif", "webp", "exr",
    ];
    assert(exts@.map_values(|e: &str| e@) =~= media_extensions());
    let mut i: usize = 0;
    while i < exts.len()
        invariant
            i <= exts@.len(),
            exts@.map_values(|e: &str| e@) == media_extensions(),
            forall|k: int| 0 <= k < i ==> media_extensions()[k] != ext@,
        decreases exts@.len() - i,
    {
        if same_text(exts[i], ext) {
            assert(media_extensions()[i as int] == ext@);
            return true;
        }
        i = i + 1;
    }
    false
}

/// Whether a file name marks a file that the daemon itself writes: a finished
/// conversion (`.conv.`) or one in progress (`.converting.`).
pub open spec fn is_work_name(name: Seq<char>) -> bool {
    has_infix(name, ".conv."@) || has_infix(name, ".converting."@)
}

/// Whether `name` marks a file that the daemon itself writes.
pub fn is_work_file_name(name: &str) -> (res: bool)
    ensures
        res == is_work_name(name@),
{
    contains_text(name, ".conv.") || contains_text(name, ".converting.")
}

/// What `is_media_file` reports for the path `p`: files that the daemon writes are no
/// media; otherwise the lowercased extension, and whether it is a media extension.
pub open spec fn media_verdict(p: Seq<char>) -> (bool, Option<Seq<char>>) {
    if path_file_name(p) matches Some(n) && is_work_name(n) {
        (false, None)
    } else {
        match path_extension(p) {
            Some(e) => (media_extensions().contains(text_lowercase(e)), Some(text_lowercase(e))),
            None => (false, None),
        }
    }
}

/// Whether `path` names a media file to convert, with its lowercased extension when it
/// has one (and is not a file that the daemon writes).
pub fn is_media_file(path: &str) -> (res: (bool, Option<String>))
    ensures
        res.0 == media_verdict(path@).0,
        opt_text(res.1) == media_verdict(path@).1,
{
    let name = file_name(path);
    match name {
        Some(n) => {
            if is_work_file_name(n.as_str()) {
                return (false, None);
            }
            match extension_of(n.as_str()) {
                Some(e) => {
                    let lower = lowercase(e.as_str());
                    (is_media_extension(lower.as_str()), Some(lower))
                },
                None => (false, None),
            }
        },
        None => (false, None),
    }
}

/// The name of the converted file made from a file named `name`: its stem, `.conv.`,
/// then the target extension `ext`.
pub open spec fn converted_name(name: Seq<char>, ext: Seq<char>) -> Seq<char> {
    name_stem(name) + ".conv."@ + ext
}

/// `converted_name(name, ext)`.
pub fn converted_file_name(name: &str, ext: &str) -> (res: String)
    ensures
        res@ == converted_name(name@, ext@),
{
    stem_of(name).concat(".conv.").concat(ext)
}

/// Where the conversion of the file at `p` into format `ext` is written: the converted
/// name inside `main_path`; none when `p` has no file name.
pub open spec fn output_path(main_path: Seq<char>, p: Seq<char>, ext: Seq<char>) -> Option<
    Seq<char>,
> {
    match path_file_name(p) {
        Some(n) => Some(path_joined(main_path, converted_name(n, ext))),
        None => None,
    }
}

/// The output path for converting the file at `path` into format `ext` in the folder
/// `main_path`.
pub fn get_output(main_path: &str, path: &str, ext: &str) -> (res: Option<String>)
    ensures
        opt_text(res) == output_path(main_path@, path@, ext@),
{
    match file_name(path) {
        Some(n) => {
            let name = converted_file_name(n.as_str(), ext);
            Some(join(main_path, name.as_str()))
        },
        None => None,
    }
}

/// The whitespace-separated words of an option string, as slices of it.
pub fn string_to_str_slice<'a>(item_string: &'a str) -> (res: Vec<&'a str>)
    ensures
        res@.map_values(|w: &'a str| w@) == words(item_string@),
{
    split_words(item_string)
}

/// Whether `portal` watches the file at `p`: `p` lies under its input folder, compared
/// by whole components, either as the folder resolves on disk (`canonical`, when it
/// resolved) or as the configuration writes it.
pub open spec fn portal_claims(portal: Portal, canonical: Option<String>, p: Seq<char>) -> bool {
    ||| (canonical matches Some(c) && path_starts_with(p, c@))
    ||| path_starts_with(p, portal.input_folder@)
}

/// Whether portal `k` is the first one, in configuration order, that watches `p`.
pub open spec fn is_first_claim(
    portals: Seq<Portal>,
    canonical: Seq<Option<String>>,
    p: Seq<char>,
    k: int,
) -> bool {
    &&& 0 <= k < portals.len()
    &&& portal_claims(portals[k], canonical[k], p)
    &&& forall|j: int| 0 <= j < k ==> !portal_claims(portals[j], canonical[j], p)
}

/// The first portal that watches the file at `path`, given how each portal's input
/// folder resolved on disk.
pub fn claiming_portal(config: &Config, path: &str, canonical_inputs: &Vec<Option<String>>) -> (res:
    Option<usize>)
    requires
        canonical_inputs@.len() == config.portal@.len(),
    ensures
        match res {
            Some(k) => is_first_claim(config.portal@, canonical_inputs@, path@, k as int),
            None => forall|j: int|
                0 <= j < config.portal@.len() ==> !portal_claims(
                    #[trigger] config.portal@[j],
                    canonical_inputs@[j],
                    path@,
                ),
        },
{
    let mut i: usize = 0;
    while i < config.portal.len()
        invariant
            i <= config.portal@.len(),
            canonical_inputs@.len() == config.portal@.len(),
            forall|j: int|
                0 <= j < i ==> !portal_claims(
                    #[trigger] config.portal@[j],
                    canonical_inputs@[j],
                    path@,
                ),
        decreases config.portal@.len() - i,
    {
        let portal = &config.portal[i];
        let by_canonical = match &canonical_inputs[i] {
            Some(c) => starts_with(path, c.as_str()),
            None => false,
        };
        if by_canonical || starts_with(path, portal.input_folder.as_str()) {
            return Some(i);
        }
        i = i + 1;
    }
    None
}

/// The work of converting one media file.
pub struct ConversionJob {
    /// Where the converted file goes.
    pub output: String,
    /// Encoder options placed before the input.
    pub input_options: Vec<String>,
    /// Encoder options placed after the input.
    pub output_options: Vec<String>,
}

/// What to do with a file that appeared in a watched folder.
pub enum MediaPlan {
    /// No portal watches it, or it is no media file.
    Ignore,
    /// Convert it.
    Convert(ConversionJob),
}

/// Whether `job` is the conversion of the file at `p` that `portal` asks for.
pub open spec fn job_for(portal: Portal, p: Seq<char>, job: ConversionJob) -> bool {
    &&& output_path(portal.output_folder@, p, portal.output_format@) == Some(job.output@)
    &&& texts(job.input_options@) == words(portal.input_options@)
    &&& texts(job.output_options@) == words(portal.output_options@)
}

/// Decides what to do with the file at `path`: when the first portal that watches it
/// exists and the file is media, convert it as that portal says; else ignore it.
/// `canonical_inputs[k]` is portal `k`'s input folder as it resolved on disk, if it did.
pub fn plan_media_file(config: &Config, path: &str, canonical_inputs: &Vec<Option<String>>) -> (res:
    MediaPlan)
    requires
        canonical_inputs@.len() == config.portal@.len(),
    ensures
        match res {
            MediaPlan::Ignore => !media_verdict(path@).0 || forall|j: int|
                0 <= j < config.portal@.len() ==> !portal_claims(
                    #[trigger] config.portal@[j],
                    canonical_inputs@[j],
                    path@,
                ),
            MediaPlan::Convert(job) => {
                &&& media_verdict(path@).0
                &&& exists|k: int|
                    #[trigger] is_first_claim(config.portal@, canonical_inputs@, path@, k)
                        && job_for(config.portal@[k], path@, job)
            },
        },
{
    let k = match claiming_portal(config, path, canonical_inputs) {
        Some(k) => k,
        None => return MediaPlan::Ignore,
    };
    if !is_media_file(path).0 {
        return MediaPlan::Ignore;
    }
    let portal = &config.portal[k];
    match get_output(portal.output_folder.as_str(), path, portal.output_format.as_str()) {
        Some(output) => {
            let job = ConversionJob {
                output,
                input_options: owned_words(portal.input_options.as_str()),
                output_options: owned_words(portal.output_options.as_str()),
            };
            assert(is_first_claim(config.portal@, canonical_inputs@, path@, k as int));
            MediaPlan::Convert(job)
        },
        None => {
            // A media file has an extension, hence a file name, hence an output path.
            MediaPlan::Ignore
        },
    }
}

/// The daemon never converts its own output: a file whose name is the converted name of
/// any file, for any target format, is not a media file.
pub proof fn converted_files_are_not_media(p: Seq<char>, name: Seq<char>, ext: Seq<char>)
    requires
        path_file_name(p) == Some(converted_name(name, ext)),
    ensures
        media_verdict(p) == (false, None::<Seq<char>>),
{
    let n = converted_name(name, ext);
    let pat = ".conv."@;
    let i = name_stem(name).len() as int;
    assert(n.subrange(i, i + pat.len()) =~= pat);
    assert(has_infix(n, pat));
}

/// Only the case of ASCII letters in a file's extension changes between the file names of
/// `p` and `p2` (they agree up to and including the final `'.'`, and after it hold ASCII
/// characters that are equal once lowercased): `is_media_file` reports the same for both.
pub proof fn extension_case_does_not_matter(p: Seq<char>, p2: Seq<char>, n: Seq<char>, n2: Seq<char>)
    requires
        path_file_name(p) == Some(n),
        path_file_name(p2) == Some(n2),
        n.len() == n2.len(),
        final_dot(n) >= 0,
        forall|j: int| 0 <= j <= final_dot(n) ==> n[j] == n2[j],
        forall|j: int|
            final_dot(n) < j < n.len() ==> is_ascii_char(#[trigger] n[j]) && is_ascii_char(n2[j])
                && ascii_lower(n[j]) == ascii_lower(n2[j]),
    ensures
        media_verdict(p) == media_verdict(p2),
{
    let d = final_dot(n);
    lemma_final_dot_bounds(n);
    assert forall|j: int| d < j < n.len() implies n2[j] != '.' by {
        assert(ascii_lower(n[j]) == ascii_lower(n2[j]));
    }
    assert(n2[d] == '.');
    lemma_final_dot_at(n2, d);
    reveal_strlit(".conv.");
    reveal_strlit(".converting.");
    lemma_infix_ending_in_dot(n, n2, d, ".conv."@);
    lemma_infix_ending_in_dot(n, n2, d, ".converting."@);
    if d > 0 {
        let e = n.subrange(d + 1, n.len() as int);
        let e2 = n2.subrange(d + 1, n2.len() as int);
        assert forall|i: int| 0 <= i < e.len() implies is_ascii_char(#[trigger] e[i]) by {
            assert(e[i] == n[d + 1 + i]);
        }
        assert forall|i: int| 0 <= i < e2.len() implies is_ascii_char(#[trigger] e2[i]) by {
            assert(e2[i] == n2[d + 1 + i]);
            assert(is_ascii_char(n[d + 1 + i]));
        }
        assert(e.map_values(|c: char| ascii_lower(c)) =~= e2.map_values(|c: char| ascii_lower(c)))
            by {
            assert forall|i: int| 0 <= i < e.len() implies ascii_lower(e[i]) == ascii_lower(
                e2[i],
            ) by {
                assert(e[i] == n[d + 1 + i]);
                assert(e2[i] == n2[d + 1 + i]);
                assert(is_ascii_char(n[d + 1 + i]));
            }
        }
    }
}

/// The media extensions are exactly these 46: video, audio and image formats.
pub proof fn media_extension_list()
    ensures
        media_extensions().len() == 46,
        media_extensions().contains("mp4"@),
        media_extensions().contains("mov"@),
        media_extensions().contains("mkv"@),
        media_extensions().contains("avi"@),
        media_extensions().contains("flv"@),
        media_extensions().contains("wmv"@),
        media_extensions().contains("webm"@),
        media_extensions().contains("mpg"@),
        media_extensions().contains("mpeg"@),
        media_extensions().contains("m4v"@),
        media_extensions().contains("ts"@),
        media_extensions().contains("ogv"@),
        media_extensions().contains("rm"@),
        media_extensions().contains("3gp"@),
        media_extensions().contains("3g2"@),
        media_extensions().contains("dv"@),
        media_extensions().contains("vob"@),
        media_extensions().contains("mts"@),
        media_extensions().contains("m2ts"@),
        media_extensions().contains("f4v"@),
        media_extensions().contains("f4p"@),
        media_extensions().contains("f4a"@),
        media_extensions().contains("f4b"@),
        media_extensions().contains("gif"@),
        media_extensions().contains("mj2"@),
        media_extensions().contains("nut"@),
        media_extensions().contains("mp3"@),
        media_extensions().contains("wav"@),
        media_extensions().contains("flac"@),
        media_extensions().contains("aac"@),
        media_extensions().contains("ogg"@),
        media_extensions().contains("m4a"@),
        media_extensions().contains("wma"@),
        media_extensions().contains("ac3"@),
        media_extensions().contains("alac"@),
        media_extensions().contains("opus"@),
        media_extensions().contains("amr"@),
        media_extensions().contains("au"@),
        media_extensions().contains("jpg"@),
        media_extensions().contains("jpeg"@),
        media_extensions().contains("png"@),
        media_extensions().contains("bmp"@),
        media_extensions().contains("tiff"@),
        media_extensions().contains("tif"@),
        media_extensions().contains("webp"@),
        media_extensions().contains("exr"@),
{
    assert(media_extensions()[0] == "mp4"@);
    assert(media_extensions()[1] == "mov"@);
    assert(media_extensions()[2] == "mkv"@);
    assert(media_extensions()[3] == "avi"@);
    assert(media_extensions()[4] == "flv"@);
    assert(media_extensions()[5] == "wmv"@);
    assert(media_extensions()[6] == "webm"@);
    assert(media_extensions()[7] == "mpg"@);
    assert(media_extensions()[8] == "mpeg"@);
    assert(media_extensions()[9] == "m4v"@);
    assert(media_extensions()[10] == "ts"@);
    assert(media_extensions()[11] == "ogv"@);
    assert(media_extensions()[12] == "rm"@);
    assert(media_extensions()[13] == "3gp"@);
    assert(media_extensions()[14] == "3g2"@);
    assert(media_extensions()[15] == "dv"@);
    assert(media_extensions()[16] == "vob"@);
    assert(media_extensions()[17] == "mts"@);
    assert(media_extensions()[18] == "m2ts"@);
    assert(media_extensions()[19] == "f4v"@);
    assert(media_extensions()[20] == "f4p"@);
    assert(media_extensions()[21] == "f4a"@);
    assert(media_extensions()[22] == "f4b"@);
    assert(media_extensions()[23] == "gif"@);
    assert(media_extensions()[24] == "mj2"@);
    assert(media_extensions()[25] == "nut"@);
    assert(media_extensions()[26] == "mp3"@);
    assert(media_extensions()[27] == "wav"@);
    assert(media_extensions()[28] == "flac"@);
    assert(media_extensions()[29] == "aac"@);
    assert(media_extensions()[30] == "ogg"@);
    assert(media_extensions()[31] == "m4a"@);
    assert(media_extensions()[32] == "wma"@);
    assert(media_extensions()[33] == "ac3"@);
    assert(media_extensions()[34] == "alac"@);
    assert(media_extensions()[35] == "opus"@);
    assert(media_extensions()[36] == "amr"@);
    assert(media_extensions()[37] == "au"@);
    assert(media_extensions()[38] == "jpg"@);
    assert(media_extensions()[39] == "jpeg"@);
    assert(media_extensions()[40] == "png"@);
    assert(media_extensions()[41] == "bmp"@);
    assert(media_extensions()[42] == "tiff"@);
    assert(media_extensions()[43] == "tif"@);
    assert(media_extensions()[44] == "webp"@);
    assert(media_extensions()[45] == "exr"@);
}

/// A file whose extension lowercases to a listed media extension is media, reported with
/// that lowercased extension, unless the daemon wrote it.
pub proof fn listed_extensions_are_media(p: Seq<char>, n: Seq<char>, e: Seq<char>)
    requires
        path_file_name(p) == Some(n),
        name_extension(n) == Some(e),
        media_extensions().contains(text_lowercase(e)),
        !has_infix(n, ".conv."@),
        !has_infix(n, ".converting."@),
    ensures
        media_verdict(p) == (true, Some(text_lowercase(e))),
{
}

/// A portal watches every file under its input folder as the configuration writes it,
/// whether or not that folder resolved on disk, and also every file under the folder it
/// resolved to; it watches no other file.
pub proof fn portal_watches_written_and_resolved_folder(
    portal: Portal,
    canonical: Option<String>,
    p: Seq<char>,
)
    ensures
        path_starts_with(p, portal.input_folder@) ==> portal_claims(portal, canonical, p),
        (canonical matches Some(c) && path_starts_with(p, c@)) ==> portal_claims(
            portal,
            canonical,
            p,
        ),
        portal_claims(portal, None, p) ==> portal_claims(portal, canonical, p),
        portal_claims(portal, canonical, p) ==> path_starts_with(p, portal.input_folder@) || (
        canonical matches Some(c) && path_starts_with(p, c@)),
{
}

/// The converted name keeps the whole input name but its final extension: for a name
/// `s.e` whose extension `e` holds no `'.'` and whose stem `s` is not empty (the stem
/// may hold dots), the converted name is `s`, `.conv.` and the target format.
pub proof fn converted_name_keeps_whole_stem(s: Seq<char>, e: Seq<char>, ext: Seq<char>)
    requires
        s.len() > 0,
        forall|j: int| 0 <= j < e.len() ==> e[j] != '.',
    ensures
        converted_name(s + seq!['.'] + e, ext) == s + ".conv."@ + ext,
{
    let n = s + seq!['.'] + e;
    assert forall|j: int| s.len() < j < n.len() implies n[j] != '.' by {
        assert(n[j] == e[j - s.len() - 1]);
    }
    crate::paths::lemma_final_dot_at(n, s.len() as int);
    assert(n.take(s.len() as int) =~= s);
}

/// A file recognised as media always has an output path, whatever the output folder
/// and target format.
pub proof fn media_files_have_output(main_path: Seq<char>, p: Seq<char>, ext: Seq<char>)
    requires
        media_verdict(p).0,
    ensures
        output_path(main_path, p, ext) is Some,
{
}

} // verus!
