//! The conversion of one file: where the encoder writes while it works, the encoder's
//! arguments, and the steps that bring the finished file to its place.

use vstd::prelude::*;
use crate::paths::{
    extension_of, file_name, join, parent, path_extension, path_file_name, path_joined,
    path_parent, path_stem, stem_of,
};
use crate::text::{has_infix, texts};
use crate::utils::{is_work_name, media_verdict};

verus! {

/// The folder in which the file for `output` is written while the encoder runs: `temp`
/// beside `output` (beside `.` when `output` has no parent).
pub open spec fn temp_dir_for(output: Seq<char>) -> Seq<char> {
    let base = match path_parent(output) {
        Some(q) => q,
        None => "."@,
    };
    path_joined(base, "temp"@)
}

/// The name of the file that the encoder writes for `output`: its stem (empty when it
/// has none), `.converting.`, then its extension (`mp4` when it has none).
pub open spec fn temp_name_for(output: Seq<char>) -> Seq<char> {
    let stem = match path_stem(output) {
        Some(s) => s,
        None => Seq::<char>::empty(),
    };
    let ext = match path_extension(output) {
        Some(e) => e,
        None => "mp4"@,
    };
    stem + ".converting."@ + ext
}

/// Where the encoder writes while it works.
pub struct ConversionPaths {
    /// The folder of work files.
    pub temp_dir: String,
    /// The work file itself.
    pub temp_output: String,
}

/// The work folder and work file for a conversion whose result goes to `output`.
pub fn conversion_paths(output: &str) -> (res: ConversionPaths)
    ensures
        res.temp_dir@ == temp_dir_for(output@),
        res.temp_output@ == path_joined(temp_dir_for(output@), temp_name_for(output@)),
{
    let temp_dir = match parent(output) {
        Some(q) => join(q.as_str(), "temp"),
        None => join(".", "temp"),
    };
    let (stem, ext) = match file_name(output) {
        Some(n) => {
            let stem = stem_of(n.as_str());
            let ext = match extension_of(n.as_str()) {
                Some(e) => e,
                None => String::from_str("mp4"),
            };
            (stem, ext)
        },
        None => (String::new(), String::from_str("mp4")),
    };
    let name = stem.concat(".converting.").concat(ext.as_str());
    let temp_output = join(temp_dir.as_str(), name.as_str());
    ConversionPaths { temp_dir, temp_output }
}

/// The encoder's arguments: the input options, `-i` and the input, the output options,
/// quiet logging and overwrite flags, then the work file.
pub open spec fn encoder_args(
    input_options: Seq<Seq<char>>,
    input: Seq<char>,
    output_options: Seq<Seq<char>>,
    temp_output: Seq<char>,
) -> Seq<Seq<char>> {
    input_options + seq!["-i"@, input] + output_options + seq![
        "-loglevel"@,
        "warning"@,
        "-y"@,
        temp_output,
    ]
}

/// Appends copies of `items` to `out`.
fn append_all(out: &mut Vec<String>, items: &Vec<String>)
    ensures
        texts(final(out)@) == texts(old(out)@) + texts(items@),
{
    let ghost start = texts(out@);
    let mut i: usize = 0;
    while i < items.len()
        invariant
            i <= items@.len(),
            texts(out@) == start + texts(items@.take(i as int)),
        decreases items@.len() - i,
    {
        let ghost before = out@;
        let item = items[i].clone();
        out.push(item);
        assert(out@ == before.push(item));
        assert(texts(items@.take(i + 1)) =~= texts(items@.take(i as int)).push(items@[i as int]@));
        assert(texts(out@) =~= texts(before).push(item@));
        i = i + 1;
    }
    assert(items@.take(items@.len() as int) =~= items@);
}

/// Pushes a copy of `s` onto `out`.
fn push_text(out: &mut Vec<String>, s: &str)
    ensures
        texts(final(out)@) == texts(old(out)@).push(s@),
{
    out.push(String::from_str(s));
    assert(texts(out@) =~= texts(out@.drop_last()).push(out@.last()@));
}

/// The encoder's arguments for converting `input` into `temp_output`.
pub fn encoder_arguments(
    input_options: &Vec<String>,
    input: &str,
    output_options: &Vec<String>,
    temp_output: &str,
) -> (res: Vec<String>)
    ensures
        texts(res@) == encoder_args(texts(input_options@), input@, texts(output_options@), temp_output@),
{
    let mut args: Vec<String> = Vec::new();
    append_all(&mut args, input_options);
    push_text(&mut args, "-i");
    push_text(&mut args, input);
    append_all(&mut args, output_options);
    push_text(&mut args, "-loglevel");
    push_text(&mut args, "warning");
    push_text(&mut args, "-y");
    push_text(&mut args, temp_output);
    assert(texts(args@) =~= encoder_args(
        texts(input_options@),
        input@,
        texts(output_options@),
        temp_output@,
    ));
    args
}

/// Where the finishing of a conversion stands.
#[derive(Clone, Copy, Debug, PartialEq, Eq, Structural)]
pub enum Phase {
    /// The folder of work files is being made ready.
    Preparing,
    /// The encoder is running.
    Encoding,
    /// The work file is being renamed to its final place.
    Moving,
    /// The rename failed; the work file is being copied to its final place.
    Copying,
    /// Nothing is left to do.
    Finished,
}

/// What the outside world reports to the conversion.
#[derive(Clone, Copy, Debug, PartialEq, Eq, Structural)]
pub enum Outcome {
    /// The folder of work files exists or was created, or could not be created.
    WorkFolderReady { ok: bool },
    /// The encoder exited, successfully or not.
    EncoderExited { success: bool },
    /// The encoder could not be started.
    EncoderNotStarted,
    /// The rename of the work file to the final place succeeded or failed.
    Renamed { ok: bool },
    /// The copy of the work file to the final place succeeded or failed.
    Copied { ok: bool },
}

/// What the conversion asks the outside world to do next.
#[derive(Clone, Copy, Debug, PartialEq, Eq, Structural)]
pub enum Step {
    /// Run the encoder.
    RunEncoder,
    /// The folder of work files could not be made: stop before encoding.
    Abandon,
    /// Rename the work file to the final place.
    Rename,
    /// Copy the work file to the final place.
    Copy,
    /// The file is in place: report that the conversion is done.
    ReportDone,
    /// The copy is in place: delete the work file, then report that the conversion is done.
    RemoveWorkFileAndReportDone,
    /// The encoder failed: delete the work file.
    RemoveWorkFile,
    /// The copy failed: give up, leaving the work file where it is.
    GiveUp,
    /// The report does not fit the phase: do nothing.
    Nothing,
}

/// The transition table of the finishing of a conversion.
pub open spec fn finishing(phase: Phase, outcome: Outcome) -> (Phase, Step) {
    match (phase, outcome) {
        (Phase::Preparing, Outcome::WorkFolderReady { ok: true }) => (
            Phase::Encoding,
            Step::RunEncoder,
        ),
        (Phase::Preparing, Outcome::WorkFolderReady { ok: false }) => (
            Phase::Finished,
            Step::Abandon,
        ),
        (Phase::Encoding, Outcome::EncoderExited { success: true }) => (Phase::Moving, Step::Rename),
        (Phase::Encoding, Outcome::EncoderExited { success: false }) => (
            Phase::Finished,
            Step::RemoveWorkFile,
        ),
        (Phase::Encoding, Outcome::EncoderNotStarted) => (Phase::Finished, Step::RemoveWorkFile),
        (Phase::Moving, Outcome::Renamed { ok: true }) => (Phase::Finished, Step::ReportDone),
        (Phase::Moving, Outcome::Renamed { ok: false }) => (Phase::Copying, Step::Copy),
        (Phase::Copying, Outcome::Copied { ok: true }) => (
            Phase::Finished,
            Step::RemoveWorkFileAndReportDone,
        ),
        (Phase::Copying, Outcome::Copied { ok: false }) => (Phase::Finished, Step::GiveUp),
        _ => (phase, Step::Nothing),
    }
}

/// The next phase and step of a conversion in `phase` on `outcome`.
pub fn next_step(phase: Phase, outcome: Outcome) -> (res: (Phase, Step))
    ensures
        res == finishing(phase, outcome),
{
    match (phase, outcome) {
        (Phase::Preparing, Outcome::WorkFolderReady { ok }) => {
            if ok {
                (Phase::Encoding, Step::RunEncoder)
            } else {
                (Phase::Finished, Step::Abandon)
            }
        },
        (Phase::Encoding, Outcome::EncoderExited { success }) => {
            if success {
                (Phase::Moving, Step::Rename)
            } else {
                (Phase::Finished, Step::RemoveWorkFile)
            }
        },
        (Phase::Encoding, Outcome::EncoderNotStarted) => (Phase::Finished, Step::RemoveWorkFile),
        (Phase::Moving, Outcome::Renamed { ok }) => {
            if ok {
                (Phase::Finished, Step::ReportDone)
            } else {
                (Phase::Copying, Step::Copy)
            }
        },
        (Phase::Copying, Outcome::Copied { ok }) => {
            if ok {
                (Phase::Finished, Step::RemoveWorkFileAndReportDone)
            } else {
                (Phase::Finished, Step::GiveUp)
            }
        },
        _ => (phase, Step::Nothing),
    }
}

/// The phase reached and the steps asked for when `outcomes` arrive, in order, at a
/// conversion in `phase`.
pub open spec fn finishing_run(phase: Phase, outcomes: Seq<Outcome>) -> (Phase, Seq<Step>)
    decreases outcomes.len(),
{
    if outcomes.len() == 0 {
        (phase, Seq::empty())
    } else {
        let prev = finishing_run(phase, outcomes.drop_last());
        let next = finishing(prev.0, outcomes.last());
        (next.0, prev.1.push(next.1))
    }
}

/// Whether a step reports the conversion as done.
pub open spec fn reports_done(step: Step) -> bool {
    step == Step::ReportDone || step == Step::RemoveWorkFileAndReportDone
}

/// How many of `steps` report the conversion as done.
pub open spec fn done_reports(steps: Seq<Step>) -> nat
    decreases steps.len(),
{
    if steps.len() == 0 {
        0
    } else {
        done_reports(steps.drop_last()) + if reports_done(steps.last()) {
            1nat
        } else {
            0nat
        }
    }
}

/// Whether the encoder reported a successful exit among `outcomes`.
pub open spec fn encoder_succeeded(outcomes: Seq<Outcome>) -> bool {
    exists|i: int|
        0 <= i < outcomes.len() && #[trigger] outcomes[i] == (Outcome::EncoderExited {
            success: true,
        })
}

/// A finished conversion stays finished and asks for nothing more.
pub proof fn finished_is_final(outcome: Outcome)
    ensures
        finishing(Phase::Finished, outcome) == (Phase::Finished, Step::Nothing),
{
}

/// Whatever the outside world reports, a conversion that starts by preparing its work
/// folder, or directly by encoding, is reported done at most once; when it is, the
/// conversion has finished and the encoder had exited successfully.
pub proof fn done_at_most_once(start: Phase, outcomes: Seq<Outcome>)
    requires
        start == Phase::Preparing || start == Phase::Encoding,
    ensures
        done_reports(finishing_run(start, outcomes).1) <= 1,
        done_reports(finishing_run(start, outcomes).1) == 1 ==> finishing_run(start, outcomes).0
            == Phase::Finished && encoder_succeeded(outcomes),
        finishing_run(start, outcomes).0 == Phase::Moving ==> encoder_succeeded(outcomes),
        finishing_run(start, outcomes).0 == Phase::Copying ==> encoder_succeeded(outcomes),
        (finishing_run(start, outcomes).0 == Phase::Preparing || finishing_run(start, outcomes).0
            == Phase::Encoding) ==> done_reports(finishing_run(start, outcomes).1) == 0,
    decreases outcomes.len(),
{
    if outcomes.len() > 0 {
        let rest = outcomes.drop_last();
        done_at_most_once(start, rest);
        let prev = finishing_run(start, rest);
        let o = outcomes.last();
        assert(finishing_run(start, outcomes).1.drop_last() =~= prev.1);
        if encoder_succeeded(rest) {
            let i = choose|i: int|
                0 <= i < rest.len() && #[trigger] rest[i] == (Outcome::EncoderExited {
                    success: true,
                });
            assert(outcomes[i] == rest[i]);
        }
        if o == (Outcome::EncoderExited { success: true }) {
            assert(outcomes[outcomes.len() - 1] == o);
        }
    }
}

/// A conversion ends after at most four reports: a work folder that cannot be made ends
/// it, the encoder's failure to start ends it, and so does the encoder's exit followed by
/// the result of a rename and of a copy, whatever each result is.
pub proof fn finishing_ends(success: bool, renamed: bool, copied: bool)
    ensures
        finishing_run(Phase::Preparing, seq![Outcome::WorkFolderReady { ok: false }]).0
            == Phase::Finished,
        finishing_run(Phase::Encoding, seq![Outcome::EncoderNotStarted]).0 == Phase::Finished,
        finishing_run(
            Phase::Encoding,
            seq![
                Outcome::EncoderExited { success },
                Outcome::Renamed { ok: renamed },
                Outcome::Copied { ok: copied },
            ],
        ).0 == Phase::Finished,
{
    let one = seq![Outcome::EncoderNotStarted];
    assert(one.drop_last() =~= Seq::<Outcome>::empty());
    let bad = seq![Outcome::WorkFolderReady { ok: false }];
    assert(bad.drop_last() =~= Seq::<Outcome>::empty());
    let three = seq![
        Outcome::EncoderExited { success },
        Outcome::Renamed { ok: renamed },
        Outcome::Copied { ok: copied },
    ];
    assert(three.drop_last() =~= seq![
        Outcome::EncoderExited { success },
        Outcome::Renamed { ok: renamed },
    ]);
    assert(three.drop_last().drop_last() =~= seq![Outcome::EncoderExited { success }]);
    assert(three.drop_last().drop_last().drop_last() =~= Seq::<Outcome>::empty());
    reveal_with_fuel(finishing_run, 4);
}

/// The file that the encoder writes while it works is never itself taken for media, so a
/// conversion in progress does not start another one.
pub proof fn work_files_are_not_media(p: Seq<char>, output: Seq<char>)
    requires
        path_file_name(p) == Some(temp_name_for(output)),
    ensures
        media_verdict(p) == (false, None::<Seq<char>>),
{
    let n = temp_name_for(output);
    let stem = match path_stem(output) {
        Some(s) => s,
        None => Seq::<char>::empty(),
    };
    let pat = ".converting."@;
    let i = stem.len() as int;
    assert(n.subrange(i, i + pat.len()) =~= pat);
    assert(has_infix(n, pat));
    assert(is_work_name(n));
}

} // verus!
