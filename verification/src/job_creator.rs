//! Creates jobs out of templates.

use crate::bytes::le_nat;
use crate::coinbase::{is_job_of_template, new_extended_job};
use crate::errors::RolesError;
use crate::ids::Id;
use crate::messages::{NewExtendedMiningJob, NewTemplate, NewTemplateView, SetNewPrevHash, Target};
use crate::transaction::{
    compact_size_decoding, decode_tx_out, outputs_view, tx_out_decoding, TxOut, TxOutView,
};
use crate::wire_format::{lemma_compact_size_len, tx_out_is_read_back};
use std::collections::HashMap;
use vstd::prelude::*;

verus! {

/// The longest script of an output that is taken over from a template.
pub const MAX_OUTPUT_SCRIPT_LEN: usize = 10000;

/// How many bytes an output takes whose script has `script_len` bytes, at most 65535.
pub open spec fn tx_out_len(script_len: nat) -> nat {
    if script_len <= 252 {
        8 + 1 + script_len
    } else {
        8 + 3 + script_len
    }
}

/// The outputs at the front of `s`, up to the first that cannot be read or whose script is
/// longer than [`MAX_OUTPUT_SCRIPT_LEN`].
pub open spec fn parsed_outputs(s: Seq<u8>) -> Seq<TxOutView>
    decreases s.len(),
{
    match tx_out_decoding(s) {
        None => Seq::empty(),
        Some(out) => if out.script_pubkey.len() > MAX_OUTPUT_SCRIPT_LEN {
            Seq::empty()
        } else {
            proof {
                lemma_decoded_output_fits(s);
            }
            seq![out] + parsed_outputs(s.skip(tx_out_len(out.script_pubkey.len()) as int))
        },
    }
}

/// An output that was read ends within the bytes that it was read from.
pub proof fn lemma_decoded_output_fits(s: Seq<u8>)
    requires
        tx_out_decoding(s) is Some,
        tx_out_decoding(s)->0.script_pubkey.len() <= MAX_OUTPUT_SCRIPT_LEN,
    ensures
        tx_out_len(tx_out_decoding(s)->0.script_pubkey.len()) <= s.len(),
{
    let (n, width) = compact_size_decoding(s.skip(8))->0;
    assert(n <= 0xFC || width >= 3);
}

/// Transforms the serialized outputs in `tx_outputs` into a vector of outputs, up to the first
/// byte that does not belong to one.
pub fn tx_outputs_to_costum_scripts(tx_outputs: &[u8]) -> (r: Vec<TxOut>)
    ensures
        outputs_view(r@) == parsed_outputs(tx_outputs@),
{
    let mut txs: Vec<TxOut> = Vec::new();
    let mut cursor: usize = 0;
    assert(tx_outputs@.skip(0) =~= tx_outputs@);
    assert(outputs_view(txs@) + parsed_outputs(tx_outputs@) =~= parsed_outputs(tx_outputs@));
    loop
        invariant
            cursor <= tx_outputs@.len(),
            parsed_outputs(tx_outputs@) == outputs_view(txs@) + parsed_outputs(
                tx_outputs@.skip(cursor as int),
            ),
        ensures
            outputs_view(txs@) == parsed_outputs(tx_outputs@),
        decreases tx_outputs@.len() - cursor,
    {
        let ghost rest = tx_outputs@.skip(cursor as int);
        let front = &tx_outputs[cursor..tx_outputs.len()];
        assert(front@ =~= rest);
        match decode_tx_out(front) {
            Ok(out) => {
                let script_len = out.script_pubkey.len();
                if script_len > MAX_OUTPUT_SCRIPT_LEN {
                    assert(outputs_view(txs@) + Seq::empty() =~= outputs_view(txs@));
                    break;
                }
                proof {
                    lemma_decoded_output_fits(rest);
                    let len = tx_out_len(script_len as nat) as int;
                    assert(tx_outputs@.skip(cursor + len) =~= rest.skip(len));
                    assert(outputs_view(txs@.push(out)) =~= outputs_view(txs@) + seq![out@]);
                    assert(outputs_view(txs@) + (seq![out@] + parsed_outputs(rest.skip(len)))
                        =~= outputs_view(txs@.push(out)) + parsed_outputs(rest.skip(len)));
                }
                cursor += if script_len <= 252 { 8 + 1 + script_len } else { 8 + 3 + script_len };
                txs.push(out);
            },
            Err(_) => {
                assert(outputs_view(txs@) + Seq::empty() =~= outputs_view(txs@));
                break;
            },
        }
    }
    txs
}

/// Outputs that are written one behind the other are read back, if no script is longer than
/// [`MAX_OUTPUT_SCRIPT_LEN`].
pub proof fn written_outputs_are_parsed(outs: Seq<TxOutView>)
    requires
        forall|i: int|
            0 <= i < outs.len() ==> (#[trigger] outs[i]).script_pubkey.len()
                <= MAX_OUTPUT_SCRIPT_LEN,
    ensures
        parsed_outputs(outs.map_values(|o: TxOutView| o.encoding()).flatten()) == outs,
    decreases outs.len(),
{
    let f = |o: TxOutView| o.encoding();
    let encs = outs.map_values(f);
    if outs.len() == 0 {
        assert(encs.flatten() =~= Seq::<u8>::empty());
        assert(outs =~= Seq::empty());
    } else {
        let out = outs[0];
        let rest = outs.drop_first();
        assert(encs.drop_first() =~= rest.map_values(f));
        let tail = rest.map_values(f).flatten();
        assert(encs.flatten() == out.encoding() + tail);
        lemma_compact_size_len(out.script_pubkey.len());
        crate::bytes::lemma_le_bytes_len(out.value as nat, 8);
        tx_out_is_read_back(out, tail);
        assert((out.encoding() + tail).skip(out.encoding().len() as int) =~= tail);
        written_outputs_are_parsed(rest);
        assert(outs =~= seq![out] + rest);
    }
}

/// The templates among `templates` that have the given id.
pub open spec fn matching(templates: Seq<NewTemplateView>, template_id: u64) -> Seq<
    NewTemplateView,
> {
    templates.filter(|t: NewTemplateView| t.template_id == template_id)
}

/// Outputs are read up to the first place where none can be read, or where one has a script of
/// more than 10000 bytes: nothing behind that place is read.
pub proof fn parsing_stops_at_the_first_bad_output(outs: Seq<TxOutView>, rest: Seq<u8>)
    requires
        forall|i: int|
            0 <= i < outs.len() ==> (#[trigger] outs[i]).script_pubkey.len() <= 10000,
        tx_out_decoding(rest) matches Some(out) ==> out.script_pubkey.len() > 10000,
    ensures
        parsed_outputs(outs.map_values(|o: TxOutView| o.encoding()).flatten() + rest) == outs,
    decreases outs.len(),
{
    let f = |o: TxOutView| o.encoding();
    let encs = outs.map_values(f);
    if outs.len() == 0 {
        assert(encs.flatten() + rest =~= rest);
        assert(outs =~= Seq::empty());
    } else {
        let out = outs[0];
        let others = outs.drop_first();
        assert(encs.drop_first() =~= others.map_values(f));
        let tail = others.map_values(f).flatten() + rest;
        assert(encs.flatten() + rest =~= out.encoding() + tail);
        lemma_compact_size_len(out.script_pubkey.len());
        crate::bytes::lemma_le_bytes_len(out.value as nat, 8);
        tx_out_is_read_back(out, tail);
        assert((out.encoding() + tail).skip(out.encoding().len() as int) =~= tail);
        parsing_stops_at_the_first_bad_output(others, rest);
        assert(outs =~= seq![out] + others);
    }
}

/// What is kept of several templates for an id: a template is kept exactly if it is one of them
/// and has that id, whatever else it holds. One more template changes what is kept exactly if it
/// has that id, and comes last then.
pub proof fn templates_are_kept_by_id(
    templates: Seq<NewTemplateView>,
    template_id: u64,
    more: NewTemplateView,
)
    ensures
        matching(Seq::empty(), template_id) == Seq::<NewTemplateView>::empty(),
        matching(templates.push(more), template_id) == (if more.template_id == template_id {
            matching(templates, template_id).push(more)
        } else {
            matching(templates, template_id)
        }),
        matching(templates, template_id).contains(more) <==> templates.contains(more)
            && more.template_id == template_id,
{
    let is_match = |t: NewTemplateView| t.template_id == template_id;
    reveal(Seq::filter);
    templates.lemma_filter_push(more, is_match);
    lemma_matching_contains(templates, template_id);
}

proof fn lemma_matching_contains(templates: Seq<NewTemplateView>, template_id: u64)
    ensures
        forall|t: NewTemplateView| #[trigger]
            matching(templates, template_id).contains(t) <==> templates.contains(t) && t.template_id
                == template_id,
        matching(templates, template_id).len() == 0 <==> forall|i: int|
            0 <= i < templates.len() ==> (#[trigger] templates[i]).template_id != template_id,
    decreases templates.len(),
{
    let is_match = |t: NewTemplateView| t.template_id == template_id;
    let kept = matching(templates, template_id);
    reveal(Seq::filter);
    if templates.len() == 0 {
        assert(kept =~= Seq::empty());
    } else {
        let front = templates.drop_last();
        let last = templates.last();
        lemma_matching_contains(front, template_id);
        assert(templates =~= front.push(last));
        front.lemma_filter_push(last, is_match);
        let kept_front = matching(front, template_id);
        assert forall|t: NewTemplateView| #[trigger]
            kept.contains(t) <==> templates.contains(t) && t.template_id == template_id by {
            assert(templates.contains(t) <==> front.contains(t) || t == last) by {
                if front.contains(t) {
                    let i = choose|i: int| 0 <= i < front.len() && front[i] == t;
                    assert(templates[i] == t);
                }
                if t == last {
                    assert(templates[templates.len() - 1] == t);
                }
                if templates.contains(t) && t != last {
                    let i = choose|i: int| 0 <= i < templates.len() && templates[i] == t;
                    assert(front[i] == t);
                }
            }
            if is_match(last) {
                assert(kept.contains(t) <==> kept_front.contains(t) || t == last) by {
                    if kept_front.contains(t) {
                        let i = choose|i: int| 0 <= i < kept_front.len() && kept_front[i] == t;
                        assert(kept[i] == t);
                    }
                    if t == last {
                        assert(kept[kept.len() - 1] == t);
                    }
                    if kept.contains(t) && t != last {
                        let i = choose|i: int| 0 <= i < kept.len() && kept[i] == t;
                        assert(kept_front[i] == t);
                    }
                }
            }
        }
        if kept.len() == 0 {
            assert forall|i: int| 0 <= i < templates.len() implies (
            #[trigger] templates[i]).template_id != template_id by {
                if i < front.len() {
                    assert(front[i].template_id != template_id);
                }
            }
        } else {
            assert(kept.contains(kept[0]));
            let i = choose|i: int| 0 <= i < templates.len() && templates[i] == kept[0];
            assert(templates[i].template_id == template_id);
        }
    }
}

/// The contents of each of several templates.
pub open spec fn templates_view(v: Seq<NewTemplate>) -> Seq<NewTemplateView> {
    v.map_values(|t: NewTemplate| t@)
}

/// Creates the jobs of an extended channel, and remembers which template each was made of.
///
/// Template ids are stored increased by one, so that 0 stands for no template.
#[derive(Debug)]
pub struct JobsCreators {
    lasts_new_template: Vec<NewTemplate>,
    job_to_template_id: HashMap<u32, u64>,
    templte_to_job_id: HashMap<u64, u32>,
    ids: Id,
    last_target: Target,
    extranonce_len: u8,
}

impl JobsCreators {
    /// The templates that a new tip of the chain may refer to, oldest first.
    pub closed spec fn templates(self) -> Seq<NewTemplateView> {
        templates_view(self.lasts_new_template@)
    }

    /// The id of the template that a job was made of.
    pub closed spec fn template_of_job(self, job_id: u32) -> Option<u64> {
        if self.job_to_template_id@.contains_key(job_id) {
            Some((self.job_to_template_id@[job_id] - 1) as u64)
        } else {
            None
        }
    }

    /// The id of the last job that was made of a template with the given id.
    pub closed spec fn job_of_template(self, template_id: u64) -> Option<u32> {
        if template_id < u64::MAX && self.templte_to_job_id@.contains_key(
            (template_id + 1) as u64,
        ) {
            Some(self.templte_to_job_id@[(template_id + 1) as u64])
        } else {
            None
        }
    }

    /// The id of the last job, or 0 if there was none.
    pub closed spec fn last_job_id(self) -> u32 {
        self.ids.last()
    }

    /// The target that came with the last new tip of the chain, or 0 if there was none.
    pub closed spec fn target(self) -> nat {
        self.last_target@
    }

    /// The number of bytes that a job leaves for the extranonce.
    pub closed spec fn extranonce_size(self) -> u8 {
        self.extranonce_len
    }

    /// Jobs are numbered from 1 to the last job id, and the job that is known for a template was
    /// made of that template.
    pub closed spec fn wf(self) -> bool {
        &&& forall|j: u32| #[trigger]
            self.job_to_template_id@.contains_key(j) ==> 1 <= j <= self.ids.last()
                && self.job_to_template_id@[j] >= 1
        &&& forall|t: u64| #[trigger]
            self.templte_to_job_id@.contains_key(t) ==> t >= 1
                && self.job_to_template_id@.contains_key(self.templte_to_job_id@[t])
                && self.job_to_template_id@[self.templte_to_job_id@[t]] == t
    }

    /// Each template that is kept has had a job made of it.
    pub open spec fn templates_have_jobs(self) -> bool {
        forall|i: int|
            0 <= i < self.templates().len() ==> self.job_of_template(
                (#[trigger] self.templates()[i]).template_id,
            ) is Some
    }

    /// Jobs are numbered from 1 to the last job id. The next job is therefore a new one.
    pub proof fn job_ids_are_numbered(self, job_id: u32)
        requires
            self.wf(),
            self.template_of_job(job_id) is Some,
        ensures
            1 <= job_id <= self.last_job_id(),
    {
    }

    /// The job that is known for a template leads back to that template.
    pub proof fn job_leads_back_to_template(self, template_id: u64)
        requires
            self.wf(),
        ensures
            self.job_of_template(template_id) matches Some(job_id) ==> self.template_of_job(job_id)
                == Some(template_id),
    {
    }

    pub fn new(extranonce_len: u8) -> (r: Self)
        ensures
            r.wf(),
            r.templates_have_jobs(),
            r.templates() == Seq::<NewTemplateView>::empty(),
            forall|j: u32| #[trigger] r.template_of_job(j) is None,
            forall|t: u64| #[trigger] r.job_of_template(t) is None,
            r.last_job_id() == 0,
            r.target() == 0,
            r.extranonce_size() == extranonce_len,
    {
        broadcast use vstd::std_specs::hash::group_hash_axioms;

        let r = Self {
            lasts_new_template: Vec::new(),
            job_to_template_id: HashMap::new(),
            templte_to_job_id: HashMap::new(),
            ids: Id::new(),
            last_target: Target::new(0, 0),
            extranonce_len,
        };
        assert(r.templates() =~= Seq::empty());
        r
    }

    /// The id of the template that a job was made of.
    pub fn get_template_id_from_job(&self, job_id: u32) -> (r: Option<u64>)
        requires
            self.wf(),
        ensures
            r == self.template_of_job(job_id),
    {
        broadcast use vstd::std_specs::hash::group_hash_axioms;

        match self.job_to_template_id.get(&job_id) {
            Some(x) => Some(*x - 1),
            None => None,
        }
    }

    /// The id of the last job that was made of a template with the given id.
    pub fn get_job_id_from_template(&self, template_id: u64) -> (r: Option<u32>)
        ensures
            r == self.job_of_template(template_id),
    {
        broadcast use vstd::std_specs::hash::group_hash_axioms;

        if template_id == u64::MAX {
            return None;
        }
        match self.templte_to_job_id.get(&(template_id + 1)) {
            Some(id) => Some(*id),
            None => None,
        }
    }

    /// Makes a job of a template, with the outputs of the pool in front of the template's own.
    /// The template is kept and the job id is used up even if there is no job in the end.
    pub fn on_new_template(
        &mut self,
        template: &NewTemplate,
        version_rolling_allowed: bool,
        pool_coinbase_outputs: Vec<TxOut>,
    ) -> (r: Result<NewExtendedMiningJob, RolesError>)
        requires
            old(self).wf(),
            old(self).last_job_id() < u32::MAX,
            template@.template_id < u64::MAX,
            template@.coinbase_tx_version <= i32::MAX ==> template@.coinbase_prefix.len() > 2,
        ensures
            final(self).wf(),
            old(self).templates_have_jobs() ==> final(self).templates_have_jobs(),
            final(self).last_job_id() == old(self).last_job_id() + 1,
            old(self).template_of_job(final(self).last_job_id()) is None,
            final(self).templates() == old(self).templates().push(template@),
            forall|j: u32| #[trigger]
                final(self).template_of_job(j) == (if j == final(self).last_job_id() {
                    Some(template@.template_id)
                } else {
                    old(self).template_of_job(j)
                }),
            forall|t: u64| #[trigger]
                final(self).job_of_template(t) == (if t == template@.template_id {
                    Some(final(self).last_job_id())
                } else {
                    old(self).job_of_template(t)
                }),
            final(self).target() == old(self).target(),
            final(self).extranonce_size() == old(self).extranonce_size(),
            is_job_of_template(
                template@,
                outputs_view(pool_coinbase_outputs@) + parsed_outputs(
                    template@.coinbase_tx_outputs,
                ),
                final(self).last_job_id(),
                version_rolling_allowed,
                old(self).extranonce_size(),
                r,
            ),
            r matches Ok(job) ==> {
                &&& job.channel_id == 0
                &&& job.job_id == final(self).last_job_id()
                &&& job.future_job == template.future_template
                &&& job.version == template.version
                &&& job.version_rolling_allowed == version_rolling_allowed
                &&& job.merkle_path@ == template.merkle_path@
            },
            final(self).template_of_job(final(self).last_job_id()) == Some(template.template_id),
            final(self).job_of_template(template.template_id) == Some(final(self).last_job_id()),
    {
        broadcast use vstd::std_specs::hash::group_hash_axioms;

        let mut coinbase_outputs = pool_coinbase_outputs;
        let mut outputs = tx_outputs_to_costum_scripts(&template.coinbase_tx_outputs);
        proof {
            assert(outputs_view(coinbase_outputs@ + outputs@) =~= outputs_view(coinbase_outputs@)
                + outputs_view(outputs@));
        }
        coinbase_outputs.append(&mut outputs);

        let template_id = template.template_id + 1;
        self.lasts_new_template.push(template.clone());
        let next_job_id = self.ids.next();
        self.job_to_template_id.insert(next_job_id, template_id);
        self.templte_to_job_id.insert(template_id, next_job_id);
        proof {
            assert(self.templates() =~= old(self).templates().push(template@));
            if old(self).templates_have_jobs() {
                assert forall|i: int| 0 <= i < self.templates().len() implies self.job_of_template(
                    (#[trigger] self.templates()[i]).template_id,
                ) is Some by {
                    if i < old(self).templates().len() {
                        assert(old(self).job_of_template(
                            old(self).templates()[i].template_id,
                        ) is Some);
                    }
                }
            }
        }
        new_extended_job(
            template,
            &coinbase_outputs,
            next_job_id,
            version_rolling_allowed,
            self.extranonce_len,
        )
    }

    /// Keeps the given template, or none, and drops all others.
    pub fn reset_new_templates(&mut self, template: Option<NewTemplate>)
        requires
            old(self).wf(),
        ensures
            final(self).wf(),
            final(self).templates() == (match template {
                Some(t) => seq![t@],
                None => Seq::empty(),
            }),
            forall|j: u32| #[trigger]
                final(self).template_of_job(j) == old(self).template_of_job(j),
            forall|t: u64| #[trigger]
                final(self).job_of_template(t) == old(self).job_of_template(t),
            final(self).last_job_id() == old(self).last_job_id(),
            final(self).target() == old(self).target(),
            final(self).extranonce_size() == old(self).extranonce_size(),
    {
        let mut kept: Vec<NewTemplate> = Vec::new();
        match template {
            Some(t) => kept.push(t),
            None => {},
        }
        self.lasts_new_template = kept;
        assert(self.templates() =~= (match template {
            Some(t) => seq![t@],
            None => Seq::empty(),
        }));
    }

    /// How many of the templates that are kept have the given id.
    pub fn count_templates(&self, template_id: u64) -> (r: usize)
        ensures
            r == matching(self.templates(), template_id).len(),
            r == 0 <==> forall|i: int|
                0 <= i < self.templates().len() ==> (#[trigger] self.templates()[i]).template_id
                    != template_id,
    {
        proof {
            lemma_matching_contains(self.templates(), template_id);
        }
        let ghost all = self.templates();
        let ghost is_match = |t: NewTemplateView| t.template_id == template_id;
        let mut count: usize = 0;
        let mut i: usize = 0;
        assert(all.take(0).filter(is_match) =~= Seq::empty());
        while i < self.lasts_new_template.len()
            invariant
                i <= self.lasts_new_template.len(),
                all == self.templates(),
                is_match == (|t: NewTemplateView| t.template_id == template_id),
                count <= i,
                count == all.take(i as int).filter(is_match).len(),
            decreases self.lasts_new_template.len() - i,
        {
            proof {
                assert(all.take(i + 1) =~= all.take(i as int).push(all[i as int]));
                all.take(i as int).lemma_filter_push(all[i as int], is_match);
            }
            if self.lasts_new_template[i].template_id == template_id {
                count += 1;
            }
            i += 1;
        }
        assert(all.take(all.len() as int) =~= all);
        count
    }

    /// The chain has a new tip: all templates are dropped but the one that the message refers
    /// to, and the id of the job that was made of that one is returned.
    pub fn on_new_prev_hash(&mut self, prev_hash: &SetNewPrevHash) -> (r: Option<u32>)
        requires
            old(self).wf(),
            matching(old(self).templates(), prev_hash.template_id).len() <= 1,
            matching(old(self).templates(), prev_hash.template_id).len() == 1 ==> old(
                self,
            ).job_of_template(prev_hash.template_id) is Some,
        ensures
            final(self).wf(),
            old(self).templates_have_jobs() ==> final(self).templates_have_jobs(),
            final(self).templates() == matching(old(self).templates(), prev_hash.template_id),
            r == (if final(self).templates().len() == 0 {
                None
            } else {
                old(self).job_of_template(prev_hash.template_id)
            }),
            r is None <==> final(self).templates().len() == 0,
            forall|t: NewTemplateView| #[trigger]
                final(self).templates().contains(t) <==> old(self).templates().contains(t)
                    && t.template_id == prev_hash.template_id,
            r is Some <==> exists|i: int|
                0 <= i < old(self).templates().len() && (
                #[trigger] old(self).templates()[i]).template_id == prev_hash.template_id,
            r is Some ==> r == old(self).job_of_template(prev_hash.template_id),
            r matches Some(job_id) ==> final(self).template_of_job(job_id) == Some(
                prev_hash.template_id,
            ),
            final(self).target() == le_nat(prev_hash.target@),
            forall|j: u32| #[trigger]
                final(self).template_of_job(j) == old(self).template_of_job(j),
            forall|t: u64| #[trigger]
                final(self).job_of_template(t) == old(self).job_of_template(t),
            final(self).last_job_id() == old(self).last_job_id(),
            final(self).extranonce_size() == old(self).extranonce_size(),
    {
        self.last_target = Target::from_le_bytes(&prev_hash.target);
        let ghost all = self.templates();
        let ghost is_match = |t: NewTemplateView| t.template_id == prev_hash.template_id;
        let mut template: Option<NewTemplate> = None;
        let mut i: usize = 0;
        assert(all.take(0).filter(is_match) =~= Seq::empty());
        while i < self.lasts_new_template.len()
            invariant
                i <= self.lasts_new_template.len(),
                all == self.templates(),
                is_match == (|t: NewTemplateView| t.template_id == prev_hash.template_id),
                all.filter(is_match).len() <= 1,
                all.take(i as int).filter(is_match) == (match template {
                    Some(t) => seq![t@],
                    None => Seq::empty(),
                }),
                template matches Some(t) ==> t@.template_id == prev_hash.template_id,
            decreases self.lasts_new_template.len() - i,
        {
            proof {
                let here = all[i as int];
                assert(all.take(i + 1) =~= all.take(i as int).push(here));
                all.take(i as int).lemma_filter_push(here, is_match);
                assert(all =~= all.take(i + 1) + all.skip(i + 1));
                Seq::filter_distributes_over_add(all.take(i + 1), all.skip(i + 1), is_match);
            }
            if self.lasts_new_template[i].template_id == prev_hash.template_id {
                template = Some(self.lasts_new_template[i].clone());
                assert(seq![template->0@] =~= Seq::empty().push(all[i as int]));
            }
            i += 1;
        }
        assert(all.take(all.len() as int) =~= all);
        proof {
            lemma_matching_contains(all, prev_hash.template_id);
        }
        match template {
            None => {
                self.reset_new_templates(None);
                None
            },
            Some(t) => {
                let job_id = self.get_job_id_from_template(prev_hash.template_id);
                self.reset_new_templates(Some(t));
                job_id
            },
        }
    }

    /// How many jobs were made so far: the id of the last one.
    pub fn jobs_created(&self) -> (r: u32)
        ensures
            r == self.last_job_id(),
    {
        self.ids.current()
    }

    /// The target that came with the last new tip of the chain.
    pub fn last_target(&self) -> (r: Target)
        ensures
            r@ == self.target(),
    {
        self.last_target
    }

    /// The templates that a new tip of the chain may refer to, oldest first.
    pub fn lasts_new_template(&self) -> (r: &Vec<NewTemplate>)
        ensures
            templates_view(r@) == self.templates(),
            r@.len() == self.templates().len(),
            forall|i: int| #![trigger self.templates()[i]]
                0 <= i < r@.len() ==> r@[i]@ == self.templates()[i],
    {
        &self.lasts_new_template
    }
}

} // verus!
