//! Media recognition, output naming and conversion planning of the self-contained daemon.

use vstd::prelude::*;
use super::config::{Config, Path};
use crate::paths::{
    extension_of, file_name, join, name_stem, parent, path_extension, path_file_name,
    path_joined, path_parent, path_starts_with, starts_with, stem_of,
};
use crate::text::{lowercase, opt_text, owned_words, split_words, text_lowercase, texts, words};
use crate::utils::{is_media_extension, media_extensions};

verus! {

/// What `is_media_file` reports for the path `p`: its lowercased extension, and whether
/// that is a media extension.
pub open spec fn media_verdict(p: Seq<char>) -> (bool, Option<Seq<char>>) {
    match path_extension(p) {
        Some(e) => (media_extensions().contains(text_lowercase(e)), Some(text_lowercase(e))),
        None => (false, None),
    }
}

/// Whether `path` names a media file, with its lowercased extension when it has one.
pub fn is_media_file(path: &str) -> (res: (bool, Option<String>))
    ensures
        res.0 == media_verdict(path@).0,
        opt_text(res.1) == media_verdict(path@).1,
{
    match file_name(path) {
        Some(n) => match extension_of(n.as_str()) {
            Some(e) => {
                let lower = lowercase(e.as_str());
                (is_media_extension(lower.as_str()), Some(lower))
            },
            None => (false, None),
        },
        None => (false, None),
    }
}

/// Where the conversion of the file at `p` into format `ext` is written: the text of
/// `main_path` directly followed by the stem, `.converted.` and `ext`; none when `p` has
/// no file name.
pub open spec fn output_path(main_path: Seq<char>, p: Seq<char>, ext: Seq<char>) -> Option<
    Seq<char>,
> {
    match path_file_name(p) {
        Some(n) => Some(main_path + name_stem(n) + ".converted."@ + ext),
        None => None,
    }
}

/// The output path for converting the file at `path` into format `ext`, written after
/// `main_path`.
pub fn get_output(main_path: &str, path: &str, ext: &str) -> (res: Option<String>)
    ensures
        opt_text(res) == output_path(main_path@, path@, ext@),
{
    match file_name(path) {
        Some(n) => {
            let stem = stem_of(n.as_str());
            Some(
                String::from_str(main_path).concat(stem.as_str()).concat(".converted.").concat(ext),
            )
        },
        None => None,
    }
}

/// The whitespace-separated words of an option string, as slices of it.
pub fn string_to_str_slice<'a>(item_string: &'a str) -> (res: Vec<&'a str>)
    ensures
        res@.map_values(|w: &'a str| w@) == words(item_string@),
{
    split_words(item_string)
}

/// Whether `entry` watches the file at `p` (see `crate::utils::portal_claims`).
pub open spec fn entry_claims(entry: Path, canonical: Option<String>, p: Seq<char>) -> bool {
    ||| (canonical matches Some(c) && path_starts_with(p, c@))
    ||| path_starts_with(p, entry.input_folder@)
}

/// Whether entry `k` is the first one, in configuration order, that watches `p`.
pub open spec fn is_first_claim(
    entries: Seq<Path>,
    canonical: Seq<Option<String>>,
    p: Seq<char>,
    k: int,
) -> bool {
    &&& 0 <= k < entries.len()
    &&& entry_claims(entries[k], canonical[k], p)
    &&& forall|j: int| 0 <= j < k ==> !entry_claims(entries[j], canonical[j], p)
}

/// The first entry that watches the file at `path`, given how each entry's input folder
/// resolved on disk.
pub fn claiming_entry(config: &Config, path: &str, canonical_inputs: &Vec<Option<String>>) -> (res:
    Option<usize>)
    requires
        canonical_inputs@.len() == config.path@.len(),
    ensures
        match res {
            Some(k) => is_first_claim(config.path@, canonical_inputs@, path@, k as int),
            None => forall|j: int|
                0 <= j < config.path@.len() ==> !entry_claims(
                    #[trigger] config.path@[j],
                    canonical_inputs@[j],
                    path@,
                ),
        },
{
    let mut i: usize = 0;
    while i < config.path.len()
        invariant
            i <= config.path@.len(),
            canonical_inputs@.len() == config.path@.len(),
            forall|j: int|
                0 <= j < i ==> !entry_claims(
                    #[trigger] config.path@[j],
                    canonical_inputs@[j],
                    path@,
                ),
        decreases config.path@.len() - i,
    {
        let entry = &config.path[i];
        let by_canonical = match &canonical_inputs[i] {
            Some(c) => starts_with(path, c.as_str()),
            None => false,
        };
        if by_canonical || starts_with(path, entry.input_folder.as_str()) {
            return Some(i);
        }
        i = i + 1;
    }
    None
}

/// The work of converting one media file.
pub struct ConversionJob {
    /// Where the converted file goes.
    pub output: String,
    /// Encoder options placed after the input.
    pub arguments: Vec<String>,
}

/// What to do with a file that appeared in a watched folder.
pub enum MediaPlan {
    /// No entry watches it, or it is no media file.
    Ignore,
    /// Convert it.
    Convert(ConversionJob),
}

/// Whether `job` is the conversion of the file at `p` that `entry` asks for.
pub open spec fn job_for(entry: Path, p: Seq<char>, job: ConversionJob) -> bool {
    &&& output_path(entry.output_folder@, p, entry.output_format@) == Some(job.output@)
    &&& texts(job.arguments@) == words(entry.arguments@)
}

/// Decides what to do with the file at `path`: when the first entry that watches it
/// exists and the file is media, convert it as that entry says; else ignore it.
/// `canonical_inputs[k]` is entry `k`'s input folder as it resolved on disk, if it did.
pub fn plan_media_file(config: &Config, path: &str, canonical_inputs: &Vec<Option<String>>) -> (res:
    MediaPlan)
    requires
        canonical_inputs@.len() == config.path@.len(),
    ensures
        match res {
            MediaPlan::Ignore => !media_verdict(path@).0 || forall|j: int|
                0 <= j < config.path@.len() ==> !entry_claims(
                    #[trigger] config.path@[j],
                    canonical_inputs@[j],
                    path@,
                ),
            MediaPlan::Convert(job) => {
                &&& media_verdict(path@).0
                &&& exists|k: int|
                    #[trigger] is_first_claim(config.path@, canonical_inputs@, path@, k)
                        && job_for(config.path@[k], path@, job)
            },
        },
{
    let i = match claiming_entry(config, path, canonical_inputs) {
        Some(k) => k,
        None => return MediaPlan::Ignore,
    };
    if !is_media_file(path).0 {
        return MediaPlan::Ignore;
    }
    let entry = &config.path[i];
    match get_output(entry.output_folder.as_str(), path, entry.output_format.as_str()) {
        Some(output) => {
            let job = ConversionJob { output, arguments: owned_words(entry.arguments.as_str()) };
            assert(is_first_claim(config.path@, canonical_inputs@, path@, i as int));
            MediaPlan::Convert(job)
        },
        None => MediaPlan::Ignore,
    }
}

/// An entry watches every file under its input folder as the configuration writes it,
/// whether or not that folder resolved on disk, and also every file under the folder it
/// resolved to; it watches no other file.
pub proof fn entry_watches_written_and_resolved_folder(
    entry: Path,
    canonical: Option<String>,
    p: Seq<char>,
)
    ensures
        path_starts_with(p, entry.input_folder@) ==> entry_claims(entry, canonical, p),
        (canonical matches Some(c) && path_starts_with(p, c@)) ==> entry_claims(
            entry,
            canonical,
            p,
        ),
        entry_claims(entry, None, p) ==> entry_claims(entry, canonical, p),
        entry_claims(entry, canonical, p) ==> path_starts_with(p, entry.input_folder@) || (
        canonical matches Some(c) && path_starts_with(p, c@)),
{
}

/// The output keeps the whole input name but its final extension: for a file named
/// `s.e` whose extension `e` holds no `'.'` and whose stem `s` is not empty (the stem
/// may hold dots), the output is `main_path`, `s`, `.converted.` and the target format;
/// a file name without such an extension is kept whole.
pub proof fn output_keeps_whole_stem(
    main_path: Seq<char>,
    p: Seq<char>,
    s: Seq<char>,
    e: Seq<char>,
    ext: Seq<char>,
)
    requires
        path_file_name(p) == Some(s + seq!['.'] + e),
        s.len() > 0,
        forall|j: int| 0 <= j < e.len() ==> e[j] != '.',
    ensures
        output_path(main_path, p, ext) == Some(main_path + s + ".converted."@ + ext),
{
    let n = s + seq!['.'] + e;
    assert forall|j: int| s.len() < j < n.len() implies n[j] != '.' by {
        assert(n[j] == e[j - s.len() - 1]);
    }
    crate::paths::lemma_final_dot_at(n, s.len() as int);
    assert(n.take(s.len() as int) =~= s);
}

/// A file name with no `'.'` is kept whole in the output name.
pub proof fn output_keeps_name_without_dot(main_path: Seq<char>, p: Seq<char>, n: Seq<char>, ext: Seq<
    char,
>)
    requires
        path_file_name(p) == Some(n),
        forall|j: int| 0 <= j < n.len() ==> n[j] != '.',
    ensures
        output_path(main_path, p, ext) == Some(main_path + n + ".converted."@ + ext),
{
    crate::paths::lemma_final_dot_bounds(n);
}

/// The encoder's arguments: `-i` and the input, the options, the work file, then quiet
/// logging and overwrite flags.
pub open spec fn encoder_args(
    input: Seq<char>,
    arguments: Seq<Seq<char>>,
    temp_output: Seq<char>,
) -> Seq<Seq<char>> {
    seq!["-i"@, input] + arguments + seq![temp_output, "-loglevel"@, "warning"@, "-y"@]
}

/// The encoder's arguments for converting `input` into `temp_output`.
pub fn encoder_arguments(input: &str, arguments: &Vec<String>, temp_output: &str) -> (res: Vec<
    String,
>)
    ensures
        texts(res@) == encoder_args(input@, texts(arguments@), temp_output@),
{
    let mut args: Vec<String> = Vec::new();
    args.push(String::from_str("-i"));
    args.push(String::from_str(input));
    let mut i: usize = 0;
    while i < arguments.len()
        invariant
            i <= arguments@.len(),
            texts(args@) == seq!["-i"@, input@] + texts(arguments@.take(i as int)),
        decreases arguments@.len() - i,
    {
        let ghost before = args@;
        let a = arguments[i].clone();
        args.push(a);
        assert(texts(arguments@.take(i + 1)) =~= texts(arguments@.take(i as int)).push(a@));
        assert(texts(args@) =~= texts(before).push(a@));
        i = i + 1;
    }
    assert(arguments@.take(arguments@.len() as int) =~= arguments@);
    let ghost mid = args@;
    args.push(String::from_str(temp_output));
    args.push(String::from_str("-loglevel"));
    args.push(String::from_str("warning"));
    args.push(String::from_str("-y"));
    assert(texts(args@) =~= encoder_args(input@, texts(arguments@), temp_output@));
    args
}

/// The work file for `output` inside the system's temporary folder `temp_dir`: the final
/// component of `output` (empty when it has none) joined to `temp_dir`.
pub open spec fn work_file_in(temp_dir: Seq<char>, output: Seq<char>) -> Seq<char> {
    let name = match path_file_name(output) {
        Some(n) => n,
        None => Seq::<char>::empty(),
    };
    path_joined(temp_dir, name)
}

/// `work_file_in(temp_dir, output)`.
pub fn work_file(temp_dir: &str, output: &str) -> (res: String)
    ensures
        res@ == work_file_in(temp_dir@, output@),
{
    match file_name(output) {
        Some(n) => join(temp_dir, n.as_str()),
        None => {
            let empty = String::new();
            join(temp_dir, empty.as_str())
        },
    }
}

/// Where a finished conversion goes: `output` itself when its parent folder exists;
/// otherwise the final component of `output` (empty when it has none) beside the input
/// (in `.` when the input has no parent).
pub open spec fn destination_for(output: Seq<char>, output_dir_exists: bool, input: Seq<char>) -> Seq<
    char,
> {
    if output_dir_exists {
        output
    } else {
        let dir = match path_parent(input) {
            Some(q) => q,
            None => "."@,
        };
        work_file_in(dir, output)
    }
}

/// Where the finished conversion of `input` into `output` goes, given whether the parent
/// folder of `output` exists as a directory (false when `output` has no parent).
pub fn destination(output: &str, output_dir_exists: bool, input: &str) -> (res: String)
    ensures
        res@ == destination_for(output@, output_dir_exists, input@),
{
    if output_dir_exists {
        String::from_str(output)
    } else {
        match parent(input) {
            Some(q) => work_file(q.as_str(), output),
            None => work_file(".", output),
        }
    }
}

} // verus!
