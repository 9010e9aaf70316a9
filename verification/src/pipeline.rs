use vstd::prelude::*;
use crate::builder::{Archiver, BuildError, can_add};
use crate::format::{Entry, EntryModel, models_of, serialize, seq_fits};
use crate::parse::{parse, parse_archive, ParseError};
use crate::paths::{sanitize, sanitize_spec, segs_of};

verus! {

/// Whether every entry fits when the entries are added in order.
pub open spec fn all_fit(es: Seq<EntryModel>) -> bool
    decreases es.len(),
{
    if es.len() == 0 {
        true
    } else {
        all_fit(es.drop_last()) && can_add(es.drop_last(), es.last())
    }
}

/// A prefix of a sequence that fits in order fits in order.
pub proof fn lemma_all_fit_prefix(es: Seq<EntryModel>, k: int)
    requires
        all_fit(es),
        0 <= k <= es.len(),
    ensures
        all_fit(es.take(k)),
    decreases es.len(),
{
    if k == es.len() {
        assert(es.take(k) =~= es);
    } else {
        lemma_all_fit_prefix(es.drop_last(), k);
        assert(es.drop_last().take(k) =~= es.take(k));
    }
}

/// Pack the entries into a container, in order: the archiver pipeline on
/// values. Succeeds with exactly the serialized bytes unless some entry
/// overruns the container's fields.
pub fn zip_entries(entries: &Vec<Entry>) -> (r: Result<Vec<u8>, BuildError>)
    ensures
        match r {
            Ok(out) => all_fit(models_of(entries@)) && seq_fits(models_of(entries@)) && out@
                == serialize(models_of(entries@)),
            Err(BuildError::TooLarge) => !all_fit(models_of(entries@)),
        },
{
    let mut ar = Archiver::new();
    let n = entries.len();
    let mut i: usize = 0;
    proof {
        assert(models_of(entries@.take(0)) =~= Seq::<EntryModel>::empty());
    }
    while i < n
        invariant
            i <= n,
            n == entries@.len(),
            ar.wf(),
            ar@ == models_of(entries@.take(i as int)),
            all_fit(models_of(entries@.take(i as int))),
        decreases n - i,
    {
        let ghost pre = models_of(entries@.take(i as int));
        let ghost m = entries@[i as int]@;
        let e = &entries[i];
        let res = match e {
            Entry::Dir { name } => ar.add_dir(name.as_slice()),
            Entry::File { name, data } => ar.add_file(name.as_slice(), data.as_slice()),
        };
        proof {
            assert(models_of(entries@.take(i as int + 1)) =~= pre.push(m));
        }
        match res {
            Ok(()) => {
                proof {
                    let now = models_of(entries@.take(i as int + 1));
                    assert(now.drop_last() =~= pre);
                    assert(now.last() == m);
                }
            },
            Err(e) => {
                proof {
                    let full = models_of(entries@);
                    assert(pre =~= full.take(i as int));
                    if all_fit(full) {
                        lemma_all_fit_prefix(full, i as int + 1);
                        assert(full.take(i as int + 1).drop_last() =~= full.take(i as int));
                        assert(full.take(i as int + 1).last() == m);
                        assert(can_add(full.take(i as int), m));
                    }
                }
                return Err(e);
            },
        }
        i = i + 1;
    }
    proof {
        assert(entries@.take(n as int) =~= entries@);
    }
    Ok(ar.finish())
}

/// One step of recreating an archive on disk: make a directory, or write a
/// file, at the sanitized relative path `segs` under the target directory.
#[derive(Debug, Clone, PartialEq, Eq)]
pub struct PlanStep {
    pub segs: Vec<Vec<u8>>,
    pub is_dir: bool,
    pub data: Vec<u8>,
}

/// The mathematical image of a `PlanStep`.
pub struct PlanStepModel {
    pub segs: Seq<Seq<u8>>,
    pub is_dir: bool,
    pub data: Seq<u8>,
}

impl View for PlanStep {
    type V = PlanStepModel;

    open spec fn view(&self) -> PlanStepModel {
        PlanStepModel { segs: segs_of(self.segs@), is_dir: self.is_dir, data: self.data@ }
    }
}

/// The step that recreates one entry: its name sanitized into segments,
/// its payload carried over for files.
pub open spec fn plan_of_entry(m: EntryModel) -> PlanStepModel {
    match m {
        EntryModel::Dir { name } => PlanStepModel {
            segs: sanitize_spec(name),
            is_dir: true,
            data: Seq::empty(),
        },
        EntryModel::File { name, data } => PlanStepModel {
            segs: sanitize_spec(name),
            is_dir: false,
            data: data,
        },
    }
}

/// The steps that recreate a parsed entry sequence, in order.
pub open spec fn plan_of(es: Seq<EntryModel>) -> Seq<PlanStepModel> {
    es.map_values(|m: EntryModel| plan_of_entry(m))
}

/// The views of a vector of steps.
pub open spec fn steps_of(v: Seq<PlanStep>) -> Seq<PlanStepModel> {
    v.map_values(|st: PlanStep| st@)
}

/// The extractor pipeline on values: parse the container and turn each
/// entry into a step at a sanitized destination, in central directory
/// order. Fails exactly when the bytes are not a sound archive.
pub fn extract_plan(archive: &[u8]) -> (r: Result<Vec<PlanStep>, ParseError>)
    requires
        archive@.len() <= 0xFFFF_FFFF_FFF0_0000,
    ensures
        match r {
            Ok(p) => parse(archive@) matches Some(es) && steps_of(p@) == plan_of(es),
            Err(_) => parse(archive@) is None,
        },
{
    let entries = match parse_archive(archive) {
        Ok(v) => v,
        Err(e) => {
            return Err(e);
        },
    };
    let n = entries.len();
    let mut out: Vec<PlanStep> = Vec::new();
    let mut i: usize = 0;
    proof {
        assert(steps_of(out@) =~= plan_of(models_of(entries@.take(0))));
    }
    while i < n
        invariant
            i <= n,
            n == entries@.len(),
            parse(archive@) == Some(models_of(entries@)),
            steps_of(out@) == plan_of(models_of(entries@.take(i as int))),
        decreases n - i,
    {
        let ghost out0 = out@;
        let e = &entries[i];
        let step = match e {
            Entry::Dir { name } => PlanStep {
                segs: sanitize(name.as_slice()),
                is_dir: true,
                data: Vec::new(),
            },
            Entry::File { name, data } => PlanStep {
                segs: sanitize(name.as_slice()),
                is_dir: false,
                data: vstd::slice::slice_to_vec(data.as_slice()),
            },
        };
        proof {
            assert(step@ == plan_of_entry(entries@[i as int]@));
        }
        out.push(step);
        i = i + 1;
        proof {
            assert(models_of(entries@.take(i as int)) =~= models_of(
                entries@.take(i as int - 1),
            ).push(entries@[i as int - 1]@));
            assert(steps_of(out@) =~= steps_of(out0).push(plan_of_entry(
                entries@[i as int - 1]@,
            )));
            assert(plan_of(models_of(entries@.take(i as int))) =~= plan_of(
                models_of(entries@.take(i as int - 1)),
            ).push(plan_of_entry(entries@[i as int - 1]@)));
        }
    }
    proof {
        assert(entries@.take(n as int) =~= entries@);
    }
    Ok(out)
}

} // verus!
