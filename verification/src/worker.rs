//! The worker dispatcher's decision core: the closed set of job kinds, the
//! parameters recovered from a persisted job record, the transform dispatch
//! from input bytes to output bytes, the output naming, and the
//! transition-checked status updates the dispatcher makes around its outside
//! work (byte storage and the repository, which the surrounding runtime
//! performs).
use vstd::prelude::*;
use crate::queue::{Queue, JobStatus};
use crate::processing::{
    ImageProcessor, ProcessingError, spec_remove_bg_result, spec_replace_bg_result,
    spec_convert_result, spec_grade_result, spec_lut_result, spec_preset_params,
};
use crate::strutil::str_eq;
use vstd::string::StringExecFns;

verus! {

/// The closed set of transformations the dispatcher executes.
#[derive(Clone, Copy, Debug)]
pub enum JobKind {
    Convert,
    RemoveBg,
    ColorGrade,
}

/// The job-kind tag used on the wire and in the persisted record.
pub open spec fn spec_parse_job_kind(s: Seq<char>) -> Option<JobKind> {
    if s == "convert"@ {
        Some(JobKind::Convert)
    } else if s == "remove_bg"@ {
        Some(JobKind::RemoveBg)
    } else if s == "color_grade"@ {
        Some(JobKind::ColorGrade)
    } else {
        None
    }
}

impl JobKind {
    /// Read a job-kind tag; unknown tags are refused rather than guessed.
    pub fn parse(s: &str) -> (r: Option<JobKind>)
        ensures
            r == spec_parse_job_kind(s@),
    {
        if str_eq(s, "convert") {
            Some(JobKind::Convert)
        } else if str_eq(s, "remove_bg") {
            Some(JobKind::RemoveBg)
        } else if str_eq(s, "color_grade") {
            Some(JobKind::ColorGrade)
        } else {
            None
        }
    }
}

/// Parameters of one job, recovered from the persisted record's parameter
/// document and handed over as plain values.
pub struct JobParams {
    pub output_format: Option<String>,
    pub width: Option<u32>,
    pub height: Option<u32>,
    pub replace_color: Option<(u8, u8, u8)>,
    pub lut_location: Option<String>,
    pub preset: Option<String>,
    pub hue: Option<i32>,
    pub saturation: Option<i32>,
    pub brightness: Option<i32>,
    pub contrast: Option<i32>,
}

impl JobParams {
    /// A parameter set asking for nothing: plain defaults everywhere.
    pub fn empty() -> (p: JobParams)
        ensures
            p.output_format is None,
            p.width is None,
            p.height is None,
            p.replace_color is None,
            p.lut_location is None,
            p.preset is None,
            p.hue is None,
            p.saturation is None,
            p.brightness is None,
            p.contrast is None,
    {
        JobParams {
            output_format: None,
            width: None,
            height: None,
            replace_color: None,
            lut_location: None,
            preset: None,
            hue: None,
            saturation: None,
            brightness: None,
            contrast: None,
        }
    }
}

/// The requested output format of a conversion, `png` when none is named.
pub open spec fn spec_format_of(of: Option<String>) -> Seq<char> {
    match of {
        Some(s) => s@,
        None => "png"@,
    }
}

/// What one transform yields on given inputs: the exact bytes for each job
/// kind, or nothing where the inputs are refused. For color grading, a LUT
/// takes precedence, then a named preset, then the manual adjustments.
pub open spec fn spec_transform_result(
    kind: JobKind,
    params: JobParams,
    input: Seq<u8>,
    lut: Option<Seq<u8>>,
) -> Option<Seq<u8>> {
    match kind {
        JobKind::RemoveBg => match params.replace_color {
            Some(c) => spec_replace_bg_result(input, c),
            None => spec_remove_bg_result(input),
        },
        JobKind::Convert => spec_convert_result(
            input,
            params.width,
            params.height,
            spec_format_of(params.output_format),
        ),
        JobKind::ColorGrade => {
            if params.lut_location is Some {
                match lut {
                    Some(lb) => spec_lut_result(input, lb),
                    None => None,
                }
            } else if params.preset is Some {
                match spec_preset_params(params.preset->0@) {
                    Some(q) => spec_grade_result(input, Some(q.0), Some(q.1), Some(q.2), Some(q.3)),
                    None => None,
                }
            } else {
                spec_grade_result(
                    input,
                    params.hue,
                    params.saturation,
                    params.brightness,
                    params.contrast,
                )
            }
        },
    }
}

/// Run one job's transform over the input bytes. `lut_data` carries the bytes
/// of the LUT named by the parameters, fetched by the caller from storage.
/// The outcome is exactly what `spec_transform_result` fixes: the bytes on
/// inputs it admits, a refusal on inputs it does not.
pub fn run_transform(
    processor: &ImageProcessor,
    kind: JobKind,
    params: &JobParams,
    input: &Vec<u8>,
    lut_data: Option<&Vec<u8>>,
) -> (r: Result<Vec<u8>, ProcessingError>)
    ensures
        spec_transform_result(
            kind,
            *params,
            input@,
            match lut_data {
                Some(l) => Some(l@),
                None => None,
            },
        ) matches Some(b) ==> r matches Ok(v) && v@ == b,
        spec_transform_result(
            kind,
            *params,
            input@,
            match lut_data {
                Some(l) => Some(l@),
                None => None,
            },
        ) is None ==> r is Err,
{
    match kind {
        JobKind::RemoveBg => match params.replace_color {
            Some(c) => processor.replace_background(input, c),
            None => processor.remove_background(input),
        },
        JobKind::Convert => {
            let fmt: &str = match &params.output_format {
                Some(s) => s.as_str(),
                None => "png",
            };
            processor.convert_format(input, params.width, params.height, fmt)
        },
        JobKind::ColorGrade => {
            if params.lut_location.is_some() {
                match lut_data {
                    Some(lb) => processor.apply_lut(input, lb),
                    None => Err(
                        ProcessingError::IoError(String::from_str("LUT data is not available")),
                    ),
                }
            } else {
                match &params.preset {
                    Some(p) => processor.apply_preset(input, p.as_str()),
                    None => processor.color_grade(
                        input,
                        params.hue,
                        params.saturation,
                        params.brightness,
                        params.contrast,
                    ),
                }
            }
        },
    }
}

/// The file name under which a job's result is stored: `processed_<id>.png`
/// for background removal, `converted_<id>.<format>` for conversion,
/// `graded_<id>.png` for color grading.
pub open spec fn spec_output_filename(kind: JobKind, id: Seq<char>, fmt: Seq<char>) -> Seq<char> {
    match kind {
        JobKind::RemoveBg => "processed_"@ + id + ".png"@,
        JobKind::Convert => "converted_"@ + id + "."@ + fmt,
        JobKind::ColorGrade => "graded_"@ + id + ".png"@,
    }
}

/// Build the result file name of a job.
pub fn output_filename(kind: JobKind, job_id: &str, output_format: &str) -> (r: String)
    ensures
        r@ == spec_output_filename(kind, job_id@, output_format@),
{
    match kind {
        JobKind::RemoveBg => String::from_str("processed_").concat(job_id).concat(".png"),
        JobKind::Convert => String::from_str("converted_").concat(job_id).concat(".").concat(
            output_format,
        ),
        JobKind::ColorGrade => String::from_str("graded_").concat(job_id).concat(".png"),
    }
}

/// Move a dequeued job to `Processing` at progress zero. Refused (and the
/// store untouched) unless the job stands at `Queued`.
pub fn begin_job(q: &mut Queue, job_id: &String) -> (ok: bool)
    requires
        old(q).wf(),
    ensures
        final(q).wf(),
        final(q).capacity == old(q).capacity,
        final(q).mirror == old(q).mirror,
        final(q).buffer@ == old(q).buffer@,
        ok == (old(q).statuses.spec_get(job_id@) == Some(JobStatus::Queued)),
        ok ==> final(q).statuses.view() == old(q).statuses.view().insert(
            job_id@,
            JobStatus::Processing { progress: 0 },
        ),
        !ok ==> final(q).statuses == old(q).statuses,
{
    match q.get_status(job_id.as_str()) {
        Some(st) => match st {
            JobStatus::Queued => {
                q.set_status(job_id, JobStatus::Processing { progress: 0 });
                true
            },
            _ => false,
        },
        None => false,
    }
}

/// Record a progress checkpoint below 100. Refused (and the store untouched)
/// unless the job is `Processing` at no more than the new value.
pub fn record_progress(q: &mut Queue, job_id: &String, progress: u32) -> (ok: bool)
    requires
        old(q).wf(),
        progress < 100,
    ensures
        final(q).wf(),
        final(q).capacity == old(q).capacity,
        final(q).mirror == old(q).mirror,
        final(q).buffer@ == old(q).buffer@,
        ok == (match old(q).statuses.spec_get(job_id@) {
            Some(st) => st is Processing && st.spec_progress() <= progress,
            None => false,
        }),
        ok ==> final(q).statuses.view() == old(q).statuses.view().insert(
            job_id@,
            JobStatus::Processing { progress },
        ),
        !ok ==> final(q).statuses == old(q).statuses,
{
    match q.get_status(job_id.as_str()) {
        Some(st) => match st {
            JobStatus::Processing { progress: p } => {
                if p <= progress {
                    q.set_status(job_id, JobStatus::Processing { progress });
                    true
                } else {
                    false
                }
            },
            _ => false,
        },
        None => false,
    }
}

/// Mark a job `Completed` with its result location. Refused (and the store
/// untouched) unless the job exists and is not yet terminal.
pub fn complete_job(q: &mut Queue, job_id: &String, result_url: String) -> (ok: bool)
    requires
        old(q).wf(),
    ensures
        final(q).wf(),
        final(q).capacity == old(q).capacity,
        final(q).mirror == old(q).mirror,
        final(q).buffer@ == old(q).buffer@,
        ok == (match old(q).statuses.spec_get(job_id@) {
            Some(st) => !st.is_terminal(),
            None => false,
        }),
        ok ==> final(q).statuses.view() == old(q).statuses.view().insert(
            job_id@,
            JobStatus::Completed { result_url },
        ),
        !ok ==> final(q).statuses == old(q).statuses,
{
    match q.get_status(job_id.as_str()) {
        Some(st) => match st {
            JobStatus::Completed { .. } => false,
            JobStatus::Failed { .. } => false,
            _ => {
                q.set_status(job_id, JobStatus::Completed { result_url });
                true
            },
        },
        None => false,
    }
}

/// Mark a job `Failed` with a human-readable summary. Refused (and the store
/// untouched) unless the job exists and is not yet terminal.
pub fn fail_job(q: &mut Queue, job_id: &String, error: String) -> (ok: bool)
    requires
        old(q).wf(),
    ensures
        final(q).wf(),
        final(q).capacity == old(q).capacity,
        final(q).mirror == old(q).mirror,
        final(q).buffer@ == old(q).buffer@,
        ok == (match old(q).statuses.spec_get(job_id@) {
            Some(st) => !st.is_terminal(),
            None => false,
        }),
        ok ==> final(q).statuses.view() == old(q).statuses.view().insert(
            job_id@,
            JobStatus::Failed { error },
        ),
        !ok ==> final(q).statuses == old(q).statuses,
{
    match q.get_status(job_id.as_str()) {
        Some(st) => match st {
            JobStatus::Completed { .. } => false,
            JobStatus::Failed { .. } => false,
            _ => {
                q.set_status(job_id, JobStatus::Failed { error });
                true
            },
        },
        None => false,
    }
}

} // verus!
