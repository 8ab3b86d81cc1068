//! Case authoring views: the templates an operator may instantiate a case
//! from, and the preflight of one instantiation. Preflight is audit-only;
//! the precondition it returns pins the template's current bytes so a later
//! commit against changed bytes is rejected as stale.
use vstd::prelude::*;
use crate::json::{Json, JsonView};
use crate::envelope::{strings_view, opt_string_view, sha256_hex_of, sha256_hex_bytes};
use crate::text::{owned, concat2, concat3};
use crate::sfwp::precondition::{RecordDigest, digest_of, record_digest};
use vstd::string::StrSliceExecFns;

verus! {

/// A template parameter definition.
pub struct TemplateParameter {
    pub param_type: String,
    pub required: bool,
    pub default: Option<String>,
}

/// One template an operator may instantiate a case from.
pub struct TemplateOption {
    /// `name@version`, the form preflight and commit accept.
    pub template_ref: String,
    pub description: String,
    /// Parameter name and definition, by name.
    pub parameters: Vec<(String, TemplateParameter)>,
}

/// `case.entry_options` result body.
pub struct EntryOptionsResult {
    pub templates: Vec<TemplateOption>,
}

/// A precondition ref naming a template.
pub open spec fn template_ref_key(template_ref: Seq<char>) -> Seq<char> {
    "template:"@ + template_ref
}

pub fn template_precondition_ref(template_ref: &str) -> (r: String)
    ensures
        r@ == template_ref_key(template_ref@),
{
    concat2("template:", template_ref)
}

/// The file of a `name@version` template ref under `templates/`; a ref with
/// no `@` names none.
pub open spec fn template_file_of(template_ref: Seq<char>) -> Option<Seq<char>> {
    if template_ref.contains('@') {
        Some(template_ref + ".yaml"@)
    } else {
        None
    }
}

/// The file name of a template ref: `<name>@<version>.yaml`, split at the
/// first `@`; none for a ref without one.
pub fn template_file_name(template_ref: &str) -> (r: Option<String>)
    ensures
        opt_string_view(r) == template_file_of(template_ref@),
{
    let n = template_ref.unicode_len();
    let mut i: usize = 0;
    while i < n
        invariant
            n == template_ref@.len(),
            i <= n,
            forall|j: int| 0 <= j < i ==> template_ref@[j] != '@',
        decreases n - i,
    {
        if template_ref.get_char(i) == '@' {
            return Some(concat2(template_ref, ".yaml"));
        }
        i += 1;
    }
    None
}

/// The current value a `template:<ref>` precondition resolves to: the
/// `sha256:` digest of the template file's bytes, as a JSON string.
pub open spec fn template_digest_value(bytes: Seq<u8>) -> JsonView {
    JsonView::Str("sha256:"@ + sha256_hex_of(bytes))
}

pub fn template_digest_source(bytes: &[u8]) -> (r: Json)
    ensures
        r@ == template_digest_value(bytes@),
{
    let hex = sha256_hex_bytes(bytes);
    Json::Str(concat2("sha256:", hex.as_str()))
}

/// A template file that loaded: what the entry options read of it.
pub struct LoadedTemplate {
    pub name: String,
    pub version: String,
    pub description: String,
    pub parameters: Vec<(String, TemplateParameter)>,
}

pub open spec fn option_ref(t: LoadedTemplate) -> Seq<char> {
    t.name@ + "@"@ + t.version@
}

/// The templates that loaded, in file order.
pub open spec fn loaded_templates(files: Seq<Result<LoadedTemplate, String>>) -> Seq<LoadedTemplate>
    decreases files.len(),
{
    if files.len() == 0 {
        Seq::empty()
    } else {
        let rest = loaded_templates(files.drop_last());
        match files.last() {
            Ok(t) => rest.push(t),
            Err(_) => rest,
        }
    }
}

/// An option is its template: the ref, the description, and the parameters
/// by name (ascending).
pub open spec fn option_of(o: TemplateOption, t: LoadedTemplate) -> bool {
    &&& o.template_ref@ == option_ref(t)
    &&& o.description == t.description
    &&& exists|order: Seq<usize>| {
        &&& #[trigger] crate::order::is_index_permutation(order, t.parameters@.len())
        &&& crate::order::ordered_by(
            t.parameters@.map_values(|p: (String, TemplateParameter)| (p.0@, Seq::<char>::empty())),
            order,
            false,
        )
        &&& o.parameters@ == order.map_values(|i: usize| t.parameters@[i as int])
    }
}

fn option_exec(t: LoadedTemplate) -> (o: TemplateOption)
    ensures
        option_of(o, t),
{
    let ghost tv = t;
    let mut keys: Vec<(String, String)> = Vec::new();
    let mut k: usize = 0;
    while k < t.parameters.len()
        invariant
            k <= t.parameters@.len(),
            keys@.len() == k,
            forall|j: int| 0 <= j < k ==> (#[trigger] keys@[j]).0@ == t.parameters@[j].0@ && keys@[j].1@ == Seq::<char>::empty(),
        decreases t.parameters@.len() - k,
    {
        keys.push((t.parameters[k].0.clone(), String::new()));
        k += 1;
    }
    proof {
        assert(crate::order::pairs_view(keys@) =~= t.parameters@.map_values(
            |p: (String, TemplateParameter)| (p.0@, Seq::<char>::empty()),
        ));
    }
    let order = crate::order::order_by_pairs(&keys, false);
    let r = concat3(t.name.as_str(), "@", t.version.as_str());
    let LoadedTemplate { name: _, version: _, description, parameters } = t;
    let parameters = crate::order::permute(parameters, &order);
    TemplateOption { template_ref: r, description, parameters }
}

/// The entry options of a cell, from what loading each `templates/*.yaml`
/// file gave: the templates that loaded, ordered by their `name@version`
/// ref; a file that does not load is skipped.
pub fn entry_options(files: Vec<Result<LoadedTemplate, String>>) -> (r: EntryOptionsResult)
    ensures
        exists|order: Seq<usize>| {
            &&& #[trigger] crate::order::is_index_permutation(order, loaded_templates(files@).len())
            &&& crate::order::ordered_by(
                loaded_templates(files@).map_values(|t: LoadedTemplate| (option_ref(t), Seq::<char>::empty())),
                order,
                false,
            )
            &&& r.templates@.len() == order.len()
            &&& forall|j: int| 0 <= j < order.len() ==> option_of(#[trigger] r.templates@[j], loaded_templates(files@)[order[j] as int])
        },
{
    let ghost fv = files@;
    let total = files.len();
    let mut options: Vec<TemplateOption> = Vec::new();
    let ghost mut loaded: Seq<LoadedTemplate> = Seq::empty();
    let mut files = files;
    let mut rev: Vec<Result<LoadedTemplate, String>> = Vec::new();
    // reverse so the files can be moved out in order
    while files.len() > 0
        invariant
            files@.len() + rev@.len() == fv.len(),
            fv.len() == total,
            files@ == fv.take(files@.len() as int),
            forall|k: int| 0 <= k < rev@.len() ==> #[trigger] rev@[k] == fv[fv.len() - 1 - k],
        decreases files@.len(),
    {
        let f = files.pop().unwrap();
        rev.push(f);
        proof {
            assert(files@ =~= fv.take(files@.len() as int));
        }
    }
    let mut i: usize = 0;
    while rev.len() > 0
        invariant
            i + rev@.len() == fv.len(),
            fv.len() == total,
            forall|k: int| 0 <= k < rev@.len() ==> #[trigger] rev@[k] == fv[fv.len() - 1 - k],
            loaded == loaded_templates(fv.take(i as int)),
            options@.len() == loaded.len(),
            forall|j: int| 0 <= j < options@.len() ==> option_of(#[trigger] options@[j], loaded[j]),
        decreases rev@.len(),
    {
        let f = rev.pop().unwrap();
        proof {
            assert(f == fv[i as int]);
            assert(fv.take(i + 1).drop_last() =~= fv.take(i as int));
        }
        match f {
            Ok(t) => {
                proof {
                    loaded = loaded.push(t);
                }
                options.push(option_exec(t));
            },
            Err(_) => {},
        }
        i += 1;
    }
    proof {
        assert(fv.take(fv.len() as int) =~= fv);
    }
    let mut keys: Vec<(String, String)> = Vec::new();
    let mut k: usize = 0;
    while k < options.len()
        invariant
            k <= options@.len(),
            options@.len() == loaded.len(),
            forall|j: int| 0 <= j < options@.len() ==> option_of(#[trigger] options@[j], loaded[j]),
            keys@.len() == k,
            forall|j: int| 0 <= j < k ==> (#[trigger] keys@[j]).0@ == option_ref(loaded[j]) && keys@[j].1@ == Seq::<char>::empty(),
        decreases options@.len() - k,
    {
        proof {
            assert(option_of(options@[k as int], loaded[k as int]));
        }
        keys.push((options[k].template_ref.clone(), String::new()));
        k += 1;
    }
    proof {
        assert(crate::order::pairs_view(keys@) =~= loaded.map_values(|t: LoadedTemplate| (option_ref(t), Seq::<char>::empty())));
    }
    let order = crate::order::order_by_pairs(&keys, false);
    let ghost ov = options@;
    let templates = crate::order::permute(options, &order);
    proof {
        assert forall|j: int| 0 <= j < order@.len() implies option_of(#[trigger] templates@[j], loaded[order@[j] as int]) by {
            assert(templates@[j] == ov[order@[j] as int]);
        }
    }
    EntryOptionsResult { templates }
}

/// Summary of one instantiated plan item, for display.
pub struct PlanItemSummary {
    pub plan_item_id: String,
    pub name: String,
    pub item_kind: String,
}

/// `case.preflight` result body; `ok` is false exactly when `errors` is not empty.
pub struct PreflightResult {
    pub ok: bool,
    pub template_ref: String,
    pub errors: Vec<String>,
    pub items: Vec<PlanItemSummary>,
    /// Carry this into `case.commit`'s preconditions; none when the template
    /// could not be loaded.
    pub precondition: Option<RecordDigest>,
}

/// How far a preflight got.
pub enum PreflightStage {
    /// The template could not be loaded.
    LoadFailed(String),
    /// The template loaded but did not instantiate with the parameters.
    InstantiateFailed(String),
    /// The plan instantiated: its items, and what validating the proposal gave.
    Validated { items: Vec<PlanItemSummary>, validation: Result<(), String> },
}

/// The precondition pinning a template's current bytes, when its file was
/// read: the record digest of the JSON string holding their digest.
pub open spec fn template_pin(template_ref: Seq<char>, bytes: Option<Vec<u8>>) -> Option<(Seq<char>, Seq<char>)> {
    match (template_file_of(template_ref), bytes) {
        (Some(_), Some(b)) => Some((template_ref_key(template_ref), record_digest(template_digest_value(b@)))),
        _ => None,
    }
}

pub open spec fn pin_view(p: Option<RecordDigest>) -> Option<(Seq<char>, Seq<char>)> {
    match p {
        Some(d) => Some((d.record_ref@, d.expected_digest@)),
        None => None,
    }
}

/// The preflight view of one instantiation. A load or instantiation failure
/// is reported with its error, no items and no pin; an instantiated plan
/// reports its items and the pin of the template's bytes (`template_bytes`,
/// when its file could be read), and is ok exactly when the proposal
/// validated.
pub fn preflight(template_ref: String, stage: PreflightStage, template_bytes: Option<Vec<u8>>) -> (r: PreflightResult)
    ensures
        r.template_ref == template_ref,
        r.ok <==> r.errors@.len() == 0,
        match stage {
            PreflightStage::LoadFailed(e) => !r.ok && strings_view(r.errors@) == seq![e@] && r.items@.len() == 0
                && r.precondition is None,
            PreflightStage::InstantiateFailed(e) => !r.ok && strings_view(r.errors@) == seq![e@] && r.items@.len()
                == 0 && r.precondition is None,
            PreflightStage::Validated { items, validation } => {
                &&& r.items == items
                &&& pin_view(r.precondition) == template_pin(template_ref@, template_bytes)
                &&& match validation {
                    Ok(()) => r.ok,
                    Err(e) => strings_view(r.errors@) == seq![e@],
                }
            },
        },
{
    match stage {
        PreflightStage::LoadFailed(e) | PreflightStage::InstantiateFailed(e) => {
            let mut errors: Vec<String> = Vec::new();
            errors.push(e);
            proof {
                assert(strings_view(errors@) =~= seq![e@]);
            }
            PreflightResult { ok: false, template_ref, errors, items: Vec::new(), precondition: None }
        },
        PreflightStage::Validated { items, validation } => {
            let precondition = match (template_file_name(template_ref.as_str()), &template_bytes) {
                (Some(_), Some(b)) => {
                    let value = template_digest_source(b.as_slice());
                    Some(
                        RecordDigest {
                            record_ref: template_precondition_ref(template_ref.as_str()),
                            expected_digest: digest_of(&value),
                        },
                    )
                },
                _ => None,
            };
            let mut errors: Vec<String> = Vec::new();
            match validation {
                Ok(()) => {},
                Err(e) => {
                    errors.push(e);
                    proof {
                        assert(strings_view(errors@) =~= seq![e@]);
                    }
                },
            }
            PreflightResult { ok: errors.len() == 0, template_ref, errors, items, precondition }
        },
    }
}

/// Request params of `case.preflight`.
pub struct PreflightParams {
    pub template_ref: String,
    /// Parameter name and value, by name.
    pub params: Vec<(String, String)>,
}

/// A commit against the template bytes a preflight pinned passes that pin:
/// the expected digest preflight returns is the digest of what the
/// `template:` ref resolves to while the bytes are unchanged.
pub proof fn law_preflight_pin_accepts_unchanged_bytes(pin: RecordDigest, bytes: Seq<u8>, current: Json)
    requires
        pin.expected_digest@ == record_digest(template_digest_value(bytes)),
        current@ == template_digest_value(bytes),
    ensures
        crate::sfwp::precondition::changed_records_of(seq![pin], seq![Some(current)]).len() == 0,
{
    let records = seq![pin];
    let cur = seq![Some(current)];
    assert(records.drop_last() =~= Seq::<RecordDigest>::empty());
    assert(cur.take(0) =~= Seq::<Option<Json>>::empty());
    assert(records.last() == pin);
    assert(cur[0] == Some(current));
    assert(crate::sfwp::precondition::current_digest_of(cur[0]) == Some(pin.expected_digest@));
    assert(crate::sfwp::precondition::changed_records_of(Seq::<RecordDigest>::empty(), Seq::<Option<Json>>::empty()).len() == 0);
}

} // verus!
