use vstd::prelude::*;
use crate::binary::{append_bytes, copy_range};
use crate::codec::{decode, encode, spec_decode, spec_encode};
use crate::embed::{embed, is_terminal_tag, spec_embed, terminal_tag};
use crate::errors::{copy_error, ConvertError, ErrorModel};
use crate::metadata::{payload_of, serialize_sidecar, sidecar_fields_present, sidecar_record_of};
use crate::pixels::{normalize_raster, spec_normalize};

verus! {

/// The index of the last dot in a file name, or minus one when none occurs.
pub open spec fn last_dot(name: Seq<u8>) -> int
    decreases name.len(),
{
    if name.len() == 0 {
        -1
    } else if name.last() == 46 {
        name.len() - 1
    } else {
        last_dot(name.drop_last())
    }
}

proof fn lemma_last_dot_found(name: Seq<u8>, i: int)
    requires
        0 <= i < name.len(),
        name[i] == 46,
        forall|k: int| i < k < name.len() ==> name[k] != 46,
    ensures
        last_dot(name) == i,
    decreases name.len(),
{
    if i < name.len() - 1 {
        assert(name.last() != 46);
        assert forall|k: int| i < k < name.drop_last().len() implies name.drop_last()[k] != 46 by {
            assert(name.drop_last()[k] == name[k]);
        }
        assert(name.drop_last()[i] == name[i]);
        lemma_last_dot_found(name.drop_last(), i);
    }
}

proof fn lemma_last_dot_none(name: Seq<u8>)
    requires
        forall|k: int| 0 <= k < name.len() ==> name[k] != 46,
    ensures
        last_dot(name) == -1,
    decreases name.len(),
{
    if name.len() > 0 {
        assert(name.last() != 46);
        assert forall|k: int| 0 <= k < name.drop_last().len() implies name.drop_last()[k] != 46 by {
            assert(name.drop_last()[k] == name[k]);
        }
        lemma_last_dot_none(name.drop_last());
    }
}

/// The extension: what follows the last dot, provided a dot stands after the
/// first byte. A name without a dot, or with only a leading one, has none.
pub open spec fn spec_ext_of(name: Seq<u8>) -> Option<Seq<u8>> {
    if last_dot(name) <= 0 {
        None
    } else {
        Some(name.skip(last_dot(name) + 1))
    }
}

/// The stem: what precedes the last dot, or the whole name.
pub open spec fn spec_stem_of(name: Seq<u8>) -> Seq<u8> {
    if last_dot(name) <= 0 {
        name
    } else {
        name.take(last_dot(name))
    }
}

/// Splits a file name at its extension boundary: the stem, and the
/// extension when there is one.
pub fn split_name(name: &Vec<u8>) -> (r: (Vec<u8>, Option<Vec<u8>>))
    ensures
        r.0@ == spec_stem_of(name@),
        r.1 matches Some(e) ==> spec_ext_of(name@) == Some(e@),
        r.1 is None ==> spec_ext_of(name@) is None,
{
    let n = name.len();
    let mut j: usize = n;
    while j > 0
        invariant
            j <= n,
            n == name@.len(),
            forall|k: int| j <= k < n ==> name@[k] != 46,
        decreases j,
    {
        if name[j - 1] == 46 {
            let i = j - 1;
            proof {
                lemma_last_dot_found(name@, i as int);
            }
            if i == 0 {
                let whole = copy_range(name.as_slice(), 0, n);
                proof {
                    assert(whole@ =~= name@);
                }
                return (whole, None);
            }
            let stem = copy_range(name.as_slice(), 0, i);
            let ext = copy_range(name.as_slice(), i + 1, n);
            return (stem, Some(ext));
        }
        j = j - 1;
    }
    proof {
        lemma_last_dot_none(name@);
    }
    let whole = copy_range(name.as_slice(), 0, n);
    proof {
        assert(whole@ =~= name@);
    }
    (whole, None)
}

/// The sidecar extension, which never marks a job of its own.
pub open spec fn txt_ext() -> Seq<u8> {
    seq![116u8, 120u8, 116u8]
}

/// One discovered pair: the raster file and the sidecar found beside it at
/// the same stem.
pub struct Job {
    pub stem: Vec<u8>,
    pub ext: Vec<u8>,
    pub image_name: Vec<u8>,
    pub sidecar_name: Vec<u8>,
}

/// The mathematical image of a `Job`.
#[verifier::ext_equal]
pub struct JobModel {
    pub stem: Seq<u8>,
    pub ext: Seq<u8>,
    pub image_name: Seq<u8>,
    pub sidecar_name: Seq<u8>,
}

impl View for Job {
    type V = JobModel;

    open spec fn view(&self) -> JobModel {
        JobModel {
            stem: self.stem@,
            ext: self.ext@,
            image_name: self.image_name@,
            sidecar_name: self.sidecar_name@,
        }
    }
}

/// Whether a directory entry becomes a job, and which: every entry with an
/// extension other than the sidecar extension is one; its sidecar lies at
/// the same stem with the sidecar extension.
pub open spec fn spec_plan(name: Seq<u8>) -> Option<JobModel> {
    match spec_ext_of(name) {
        None => None,
        Some(e) => if e == txt_ext() {
            None
        } else {
            Some(
                JobModel {
                    stem: spec_stem_of(name),
                    ext: e,
                    image_name: name,
                    sidecar_name: spec_stem_of(name) + seq![46u8] + txt_ext(),
                },
            )
        },
    }
}

/// Decides whether one directory entry is a job, exactly as `spec_plan`
/// says.
pub fn plan_job(name: &Vec<u8>) -> (r: Option<Job>)
    ensures
        r matches Some(j) ==> spec_plan(name@) == Some(j@),
        r is None ==> spec_plan(name@) is None,
{
    let (stem, ext_opt) = split_name(name);
    let ext = match ext_opt {
        Some(e) => e,
        None => {
            return None;
        },
    };
    proof {
        assert(txt_ext().len() == 3 && txt_ext()[0] == 116 && txt_ext()[1] == 120 && txt_ext()[2]
            == 116);
    }
    let is_txt = ext.len() == 3 && ext[0] == 116 && ext[1] == 120 && ext[2] == 116;
    proof {
        if is_txt {
            assert(ext@ =~= txt_ext());
        }
    }
    if is_txt {
        return None;
    }
    let mut sidecar: Vec<u8> = Vec::new();
    append_bytes(&mut sidecar, stem.as_slice());
    sidecar.push(46);
    sidecar.push(116);
    sidecar.push(120);
    sidecar.push(116);
    let image_name = copy_range(name.as_slice(), 0, name.len());
    proof {
        assert(image_name@ =~= name@);
        assert(sidecar@ =~= spec_stem_of(name@) + seq![46u8] + txt_ext());
    }
    Some(Job { stem, ext, image_name, sidecar_name: sidecar })
}

/// The jobs of a directory listing, in listing order.
pub open spec fn spec_plan_all(names: Seq<Seq<u8>>) -> Seq<JobModel>
    decreases names.len(),
{
    if names.len() == 0 {
        Seq::empty()
    } else {
        match spec_plan(names[0]) {
            Some(j) => seq![j] + spec_plan_all(names.skip(1)),
            None => spec_plan_all(names.skip(1)),
        }
    }
}

/// Discovers every job of a directory listing, exactly as `spec_plan_all`
/// says.
pub fn plan_jobs(names: &Vec<Vec<u8>>) -> (r: Vec<Job>)
    ensures
        r@.map_values(|j: Job| j@) == spec_plan_all(names@.map_values(|n: Vec<u8>| n@)),
{
    let ghost namesm = names@.map_values(|n: Vec<u8>| n@);
    let mut jobs: Vec<Job> = Vec::new();
    let mut i: usize = 0;
    proof {
        assert(jobs@.map_values(|j: Job| j@) =~= Seq::<JobModel>::empty());
        assert(namesm.skip(0) =~= namesm);
        assert(Seq::<JobModel>::empty() + spec_plan_all(namesm) =~= spec_plan_all(namesm));
    }
    while i < names.len()
        invariant
            0 <= i <= names@.len(),
            namesm == names@.map_values(|n: Vec<u8>| n@),
            spec_plan_all(namesm) == jobs@.map_values(|j: Job| j@) + spec_plan_all(
                namesm.skip(i as int),
            ),
        decreases names@.len() - i,
    {
        let ghost jobsm = jobs@.map_values(|j: Job| j@);
        let ghost t = namesm.skip(i as int);
        proof {
            assert(t[0] == namesm[i as int]);
            assert(t.skip(1) =~= namesm.skip(i as int + 1));
            assert(namesm[i as int] == names@[i as int]@);
        }
        match plan_job(&names[i]) {
            Some(j) => {
                let ghost jm = j@;
                jobs.push(j);
                proof {
                    assert(jobs@.map_values(|j: Job| j@) =~= jobsm.push(jm));
                    assert(jobsm + (seq![jm] + spec_plan_all(t.skip(1))) =~= jobsm.push(jm)
                        + spec_plan_all(t.skip(1)));
                }
            },
            None => {},
        }
        i = i + 1;
    }
    proof {
        assert(namesm.skip(names@.len() as int) =~= Seq::<Seq<u8>>::empty());
        assert(spec_plan_all(Seq::<Seq<u8>>::empty()) == Seq::<JobModel>::empty());
        assert(jobs@.map_values(|j: Job| j@) + Seq::<JobModel>::empty() =~= jobs@.map_values(
            |j: Job| j@,
        ));
    }
    jobs
}

/// The output file name of a job: `{stem}.png` under the output directory.
pub fn output_path(dir: &Vec<u8>, stem: &Vec<u8>) -> (r: Vec<u8>)
    ensures
        r@ == dir@ + seq![47u8] + stem@ + seq![46u8, 112u8, 110u8, 103u8],
{
    let mut out: Vec<u8> = Vec::new();
    append_bytes(&mut out, dir.as_slice());
    out.push(47);
    append_bytes(&mut out, stem.as_slice());
    out.push(46);
    out.push(112);
    out.push(110);
    out.push(103);
    proof {
        assert(out@ =~= dir@ + seq![47u8] + stem@ + seq![46u8, 112u8, 110u8, 103u8]);
    }
    out
}

/// The intermediate file the normalizer's output is written to: same stem,
/// under the `temp` subdirectory, with the canonical extension.
pub fn temp_path(dir: &Vec<u8>, stem: &Vec<u8>) -> (r: Vec<u8>)
    ensures
        r@ == dir@ + seq![47u8, 116u8, 101u8, 109u8, 112u8, 47u8] + stem@ + seq![
            46u8,
            112u8,
            110u8,
            103u8,
        ],
{
    let mut out: Vec<u8> = Vec::new();
    append_bytes(&mut out, dir.as_slice());
    out.push(47);
    out.push(116);
    out.push(101);
    out.push(109);
    out.push(112);
    out.push(47);
    append_bytes(&mut out, stem.as_slice());
    out.push(46);
    out.push(112);
    out.push(110);
    out.push(103);
    proof {
        assert(out@ =~= dir@ + seq![47u8, 116u8, 101u8, 109u8, 112u8, 47u8] + stem@ + seq![
            46u8,
            112u8,
            110u8,
            103u8,
        ]);
    }
    out
}

/// What the orchestrator does with one job.
#[derive(Clone, Copy, PartialEq, Eq, Structural, Debug)]
pub enum Action {
    Convert,
    Skip,
}

/// Law: a job whose output path already exists is skipped — by presence
/// alone, never by content — and every other job is converted.
pub fn plan_action(output_exists: bool) -> (r: Action)
    ensures
        r == (if output_exists {
            Action::Skip
        } else {
            Action::Convert
        }),
{
    if output_exists {
        Action::Skip
    } else {
        Action::Convert
    }
}

/// How one job ended.
pub enum Outcome {
    Skipped,
    Success,
    Failure(ConvertError),
}

/// The mathematical image of an `Outcome`.
#[verifier::ext_equal]
pub enum OutcomeModel {
    Skipped,
    Success,
    Failure(ErrorModel),
}

impl View for Outcome {
    type V = OutcomeModel;

    open spec fn view(&self) -> OutcomeModel {
        match self {
            Outcome::Skipped => OutcomeModel::Skipped,
            Outcome::Success => OutcomeModel::Success,
            Outcome::Failure(e) => OutcomeModel::Failure(e@),
        }
    }
}

/// One job's result, tagged with the source path it came from.
pub struct JobResult {
    pub name: Vec<u8>,
    pub outcome: Outcome,
}

/// The mathematical image of a `JobResult`.
#[verifier::ext_equal]
pub struct JobResultModel {
    pub name: Seq<u8>,
    pub outcome: OutcomeModel,
}

impl View for JobResult {
    type V = JobResultModel;

    open spec fn view(&self) -> JobResultModel {
        JobResultModel { name: self.name@, outcome: self.outcome@ }
    }
}

pub open spec fn count_skipped(rs: Seq<JobResultModel>) -> int
    decreases rs.len(),
{
    if rs.len() == 0 {
        0
    } else {
        (if rs[0].outcome is Skipped {
            1int
        } else {
            0int
        }) + count_skipped(rs.skip(1))
    }
}

pub open spec fn count_success(rs: Seq<JobResultModel>) -> int
    decreases rs.len(),
{
    if rs.len() == 0 {
        0
    } else {
        (if rs[0].outcome is Success {
            1int
        } else {
            0int
        }) + count_success(rs.skip(1))
    }
}

pub open spec fn count_failed(rs: Seq<JobResultModel>) -> int
    decreases rs.len(),
{
    if rs.len() == 0 {
        0
    } else {
        (if rs[0].outcome is Failure {
            1int
        } else {
            0int
        }) + count_failed(rs.skip(1))
    }
}

/// The failures, in result order, each with its source path and its own
/// cause.
pub open spec fn spec_failures(rs: Seq<JobResultModel>) -> Seq<(Seq<u8>, ErrorModel)>
    decreases rs.len(),
{
    if rs.len() == 0 {
        Seq::empty()
    } else {
        match rs[0].outcome {
            OutcomeModel::Failure(e) => seq![(rs[0].name, e)] + spec_failures(rs.skip(1)),
            _ => spec_failures(rs.skip(1)),
        }
    }
}

/// What a finished batch exposes: the counts, and every failure with its
/// preserved cause.
pub struct BatchReport {
    pub attempted: usize,
    pub succeeded: usize,
    pub skipped: usize,
    pub failed: usize,
    pub failures: Vec<(Vec<u8>, ConvertError)>,
}

/// Folds per-job results into the batch report. Law: failures are isolated —
/// each failed job contributes exactly its own entry, and the counts of the
/// other jobs are unaffected.
pub fn summarize(results: &Vec<JobResult>) -> (r: BatchReport)
    ensures
        r.attempted == results@.len(),
        r.skipped == count_skipped(results@.map_values(|x: JobResult| x@)),
        r.succeeded == count_success(results@.map_values(|x: JobResult| x@)),
        r.failed == count_failed(results@.map_values(|x: JobResult| x@)),
        r.failures@.map_values(|p: (Vec<u8>, ConvertError)| (p.0@, p.1@)) == spec_failures(
            results@.map_values(|x: JobResult| x@),
        ),
{
    let ghost models = results@.map_values(|x: JobResult| x@);
    let mut skipped: usize = 0;
    let mut succeeded: usize = 0;
    let mut failed: usize = 0;
    let mut failures: Vec<(Vec<u8>, ConvertError)> = Vec::new();
    let mut i: usize = 0;
    proof {
        assert(models.skip(0) =~= models);
        assert(failures@.map_values(|p: (Vec<u8>, ConvertError)| (p.0@, p.1@)) =~= Seq::<
            (Seq<u8>, ErrorModel),
        >::empty());
        assert(Seq::<(Seq<u8>, ErrorModel)>::empty() + spec_failures(models) =~= spec_failures(
            models,
        ));
    }
    while i < results.len()
        invariant
            0 <= i <= results@.len(),
            models == results@.map_values(|x: JobResult| x@),
            skipped <= i && succeeded <= i && failed <= i,
            skipped + count_skipped(models.skip(i as int)) == count_skipped(models),
            succeeded + count_success(models.skip(i as int)) == count_success(models),
            failed + count_failed(models.skip(i as int)) == count_failed(models),
            spec_failures(models) == failures@.map_values(
                |p: (Vec<u8>, ConvertError)| (p.0@, p.1@),
            ) + spec_failures(models.skip(i as int)),
        decreases results@.len() - i,
    {
        let ghost t = models.skip(i as int);
        let ghost fs = failures@.map_values(|p: (Vec<u8>, ConvertError)| (p.0@, p.1@));
        proof {
            assert(t[0] == models[i as int]);
            assert(t.skip(1) =~= models.skip(i as int + 1));
            assert(models[i as int] == results@[i as int]@);
        }
        let res = &results[i];
        match &res.outcome {
            Outcome::Skipped => {
                skipped = skipped + 1;
            },
            Outcome::Success => {
                succeeded = succeeded + 1;
            },
            Outcome::Failure(e) => {
                failed = failed + 1;
                let name = copy_range(res.name.as_slice(), 0, res.name.len());
                let err = copy_error(e);
                let ghost entry = (name@, err@);
                failures.push((name, err));
                proof {
                    assert(name@ =~= res.name@);
                    assert(failures@.map_values(|p: (Vec<u8>, ConvertError)| (p.0@, p.1@)) =~= fs.push(
                        entry,
                    ));
                    assert(fs + (seq![entry] + spec_failures(t.skip(1))) =~= fs.push(entry)
                        + spec_failures(t.skip(1)));
                }
            },
        }
        i = i + 1;
    }
    proof {
        assert(models.skip(results@.len() as int) =~= Seq::<JobResultModel>::empty());
        assert(count_skipped(Seq::<JobResultModel>::empty()) == 0);
        assert(count_success(Seq::<JobResultModel>::empty()) == 0);
        assert(count_failed(Seq::<JobResultModel>::empty()) == 0);
        assert(spec_failures(Seq::<JobResultModel>::empty()) == Seq::<(Seq<u8>, ErrorModel)>::empty());
        assert(failures@.map_values(|p: (Vec<u8>, ConvertError)| (p.0@, p.1@)) + Seq::<
            (Seq<u8>, ErrorModel),
        >::empty() =~= failures@.map_values(|p: (Vec<u8>, ConvertError)| (p.0@, p.1@)));
    }
    BatchReport { attempted: results.len(), skipped, succeeded, failed, failures }
}

/// What decoding, embedding and re-encoding container bytes yields. A
/// decoded sequence that is empty or does not end with the terminal chunk
/// cannot take an embed and counts as malformed; a payload too long for a
/// chunk's length field is refused as a schema failure.
pub open spec fn spec_embed_into(png: Seq<u8>, payload: Seq<u8>) -> Result<Seq<u8>, ErrorModel> {
    match spec_decode(png) {
        Err(e) => Err(e),
        Ok(cs) => if cs.len() == 0 || cs.last().tag != terminal_tag() {
            Err(ErrorModel::Truncated)
        } else if payload.len() > 0xFFFF_FFFF {
            Err(ErrorModel::Schema)
        } else {
            Ok(spec_encode(spec_embed(cs, payload)))
        },
    }
}

/// Decodes normalized container bytes, embeds the payload before the
/// terminal chunk, and re-encodes, exactly as `spec_embed_into` says.
pub fn embed_into_container(png: &Vec<u8>, payload: Vec<u8>) -> (r: Result<Vec<u8>, ConvertError>)
    ensures
        r matches Ok(out) ==> spec_embed_into(png@, payload@) == Ok::<_, ErrorModel>(out@),
        r matches Err(e) ==> spec_embed_into(png@, payload@) == Err::<Seq<u8>, _>(e@),
{
    let c = match decode(png.as_slice()) {
        Ok(c) => c,
        Err(e) => {
            return Err(e);
        },
    };
    let n = c.chunks.len();
    proof {
        assert(c@.len() == n);
    }
    if n == 0 {
        return Err(ConvertError::TruncatedError);
    }
    let last_ok = is_terminal_tag(&c.chunks[n - 1].tag);
    proof {
        assert(c@[n - 1] == c.chunks@[n - 1]@);
        assert(c@.last().tag == c.chunks@[n - 1]@.tag);
    }
    if !last_ok {
        return Err(ConvertError::TruncatedError);
    }
    if payload.len() as u64 > 0xFFFF_FFFFu64 {
        return Err(ConvertError::SchemaError);
    }
    let c2 = embed(c, payload);
    let out = encode(&c2);
    Ok(out)
}

/// What the metadata stage and the embed yield together: a sidecar lacking
/// any of the six required fields is a schema failure; otherwise exactly
/// the embed of that sidecar's record's payload.
pub open spec fn spec_convert_normalized(png: Seq<u8>, sidecar: Seq<u8>) -> Result<
    Seq<u8>,
    ErrorModel,
> {
    if !sidecar_fields_present(sidecar) {
        Err(ErrorModel::Schema)
    } else {
        spec_embed_into(png, payload_of(sidecar_record_of(sidecar)))
    }
}

/// Reads the sidecar and embeds its payload into normalized container
/// bytes, exactly as `spec_convert_normalized` says: success is owed
/// whenever the sidecar carries its six fields and the container takes the
/// embed, and the output is the embed of exactly that sidecar's record.
pub fn convert_normalized(png: &Vec<u8>, sidecar: &Vec<u8>) -> (r: Result<Vec<u8>, ConvertError>)
    ensures
        r matches Ok(out) ==> spec_convert_normalized(png@, sidecar@) == Ok::<_, ErrorModel>(out@),
        r matches Err(e) ==> spec_convert_normalized(png@, sidecar@) == Err::<Seq<u8>, _>(e@),
{
    let payload = match serialize_sidecar(sidecar) {
        Ok(p) => p,
        Err(e) => {
            return Err(e);
        },
    };
    embed_into_container(png, payload)
}

/// What the whole per-job computation yields for a source the generic
/// raster decoder reads: the normalization outcome, then the metadata and
/// embed stages, each failure kept as its own.
pub open spec fn spec_convert_pair(raster: Seq<u8>, sidecar: Seq<u8>) -> Result<Seq<u8>, ErrorModel> {
    match spec_normalize(raster) {
        Err(e) => Err(e),
        Ok(png) => spec_convert_normalized(png, sidecar),
    }
}

/// The whole per-job computation for a source that the generic raster
/// decoder reads: normalize, then embed the sidecar's payload, exactly as
/// `spec_convert_pair` says — so no stage's error is flattened into
/// another's, and success is owed whenever every stage takes its input.
pub fn convert_pair(raster: &Vec<u8>, sidecar: &Vec<u8>) -> (r: Result<Vec<u8>, ConvertError>)
    ensures
        r matches Ok(out) ==> spec_convert_pair(raster@, sidecar@) == Ok::<_, ErrorModel>(out@),
        r matches Err(e) ==> spec_convert_pair(raster@, sidecar@) == Err::<Seq<u8>, _>(e@),
{
    let png = match normalize_raster(raster) {
        Ok(p) => p,
        Err(e) => {
            return Err(e);
        },
    };
    convert_normalized(&png, sidecar)
}

}
