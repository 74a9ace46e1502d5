//! Settling on the configuration of a model: the first architecture whose
//! schema reads the configuration document, with the metadata that the
//! document does not hold.

use vstd::prelude::*;
use vstd::string::*;
use crate::dtype::Kind;

verus! {

/// Name of the configuration document of a model.
pub const CONFIG_FILE: &'static str = "config.json";

/// First line of the message that reports that no schema read the document.
pub const NO_SCHEMA_MATCHED: &'static str = "failed to load model config:\n";

/// The architectures that a model can have. Each has a schema of its own for
/// the configuration document.
#[derive(Clone, Copy, Debug, PartialEq, Eq, Structural)]
pub enum ModelType {
    Llama,
    Phi,
}

/// The name under which the schema of an architecture is reported.
pub open spec fn schema_name_of(model_type: ModelType) -> Seq<char> {
    match model_type {
        ModelType::Llama => "llama"@,
        ModelType::Phi => "phi"@,
    }
}

/// The name under which the schema of an architecture is reported.
pub fn schema_name(model_type: ModelType) -> (name: &'static str)
    ensures
        name@ == schema_name_of(model_type),
{
    match model_type {
        ModelType::Llama => "llama",
        ModelType::Phi => "phi",
    }
}

/// The architectures in the order in which their schemas are held against a
/// configuration document. The first schema that reads the document decides,
/// so a schema that reads what an earlier one reads as well never does.
pub fn schema_priority() -> (order: Vec<ModelType>)
    ensures
        order@ == seq![ModelType::Llama, ModelType::Phi],
{
    let mut order: Vec<ModelType> = Vec::new();
    order.push(ModelType::Llama);
    order.push(ModelType::Phi);
    assert(order@ =~= seq![ModelType::Llama, ModelType::Phi]);
    order
}

/// Where the model computes.
#[derive(Clone, Copy, Debug, PartialEq, Eq, Structural)]
pub enum Device {
    Cpu,
    Cuda(usize),
    Mps,
    Vulkan,
}

/// What is known of a model whatever its architecture.
#[derive(Debug)]
pub struct ModelMeta {
    pub id: String,
    pub vocab_size: usize,
    pub tok_vocab_size: usize,
    pub max_sequence_length: usize,
}

/// What every schema is handed when it turns a document into a
/// configuration: the metadata that comes from the caller, not from the
/// document.
#[derive(Debug)]
pub struct CommonModelConfig {
    pub meta: ModelMeta,
    pub dtype: Kind,
    pub device: Device,
}

/// The configuration of a model: what its architecture needs to know, of
/// type `A`, and what every model has.
#[derive(Debug)]
pub struct ModelConfig<A> {
    pub model_type: ModelType,
    pub arch: A,
    pub meta: ModelMeta,
    pub dtype: Kind,
    pub device: Device,
    pub profile_step_no: usize,
}

/// One schema held against the document: its name, and the configuration it
/// read or the reason why it could not.
#[derive(Debug)]
pub struct SchemaAttempt<A> {
    pub name: String,
    pub parsed: Result<ModelConfig<A>, String>,
}

/// No schema could read the configuration document.
#[derive(Debug)]
pub struct ConfigError {
    /// A heading, then for each schema a line with its name and the reason
    /// why it could not read the document.
    pub message: String,
}

/// The line that reports why the schema `name` could not read the document.
pub open spec fn error_line(name: Seq<char>, reason: Seq<char>) -> Seq<char> {
    name + ": "@ + reason + "\n"@
}

/// The lines that report the attempts that failed, in the order of the
/// attempts.
pub open spec fn error_lines<A>(attempts: Seq<SchemaAttempt<A>>) -> Seq<char>
    decreases attempts.len(),
{
    if attempts.len() == 0 {
        Seq::empty()
    } else {
        let last = attempts.last();
        error_lines(attempts.drop_last()) + match last.parsed {
            Ok(_) => Seq::empty(),
            Err(reason) => error_line(last.name@, reason@),
        }
    }
}

/// Whether attempt `k` is the first one that read the document.
pub open spec fn is_first_match<A>(attempts: Seq<SchemaAttempt<A>>, k: int) -> bool {
    &&& 0 <= k < attempts.len()
    &&& attempts[k].parsed is Ok
    &&& forall|j: int| 0 <= j < k ==> attempts[j].parsed is Err
}

/// Whether no attempt read the document.
pub open spec fn none_matches<A>(attempts: Seq<SchemaAttempt<A>>) -> bool {
    forall|j: int| 0 <= j < attempts.len() ==> attempts[j].parsed is Err
}

/// The metadata that every schema starts from: the identifier of the model,
/// the numeric kind and the device that the caller asked for, and sizes
/// still to be read or queried.
pub fn common_model_config(model_id: String, dtype: Kind, device: Device) -> (common:
    CommonModelConfig)
    ensures
        common.meta.id == model_id,
        common.meta.vocab_size == 0,
        common.meta.tok_vocab_size == 0,
        common.meta.max_sequence_length == 0,
        common.dtype == dtype,
        common.device == device,
{
    CommonModelConfig {
        meta: ModelMeta { id: model_id, vocab_size: 0, tok_vocab_size: 0, max_sequence_length: 0 },
        dtype,
        device,
    }
}

/// Takes in what one schema made of the document. A configuration is handed
/// on and ends the search. A failure adds its line to `err`, and the search
/// goes on with the next schema.
pub fn load_one_config<A>(err: &mut String, name: &str, parsed: Result<ModelConfig<A>, String>) -> (r:
    Option<ModelConfig<A>>)
    ensures
        match parsed {
            Ok(config) => r == Some(config) && final(err)@ == old(err)@,
            Err(reason) => r is None && final(err)@ == old(err)@ + error_line(name@, reason@),
        },
{
    match parsed {
        Ok(config) => Some(config),
        Err(reason) => {
            err.append(name);
            err.append(": ");
            err.append(reason.as_str());
            err.append("\n");
            assert(err@ =~= old(err)@ + error_line(name@, reason@));
            None
        },
    }
}

/// Settles on the configuration that the first matching schema read, the
/// attempts being in the order of their priority. Where none matched, the
/// message of the error has a line for each attempt, in that order.
pub fn load_model_config<A>(attempts: Vec<SchemaAttempt<A>>) -> (r: Result<
    ModelConfig<A>,
    ConfigError,
>)
    ensures
        match r {
            Ok(config) => exists|k: int| #[trigger]
                is_first_match(attempts@, k) && attempts@[k].parsed == Ok::<
                    ModelConfig<A>,
                    String,
                >(config),
            Err(e) => none_matches(attempts@) && e.message@ == NO_SCHEMA_MATCHED@ + error_lines(
                attempts@,
            ),
        },
{
    let mut rest = attempts;
    let mut err = String::new();
    let ghost mut i: int = 0;
    assert(attempts@.take(0) =~= Seq::<SchemaAttempt<A>>::empty());
    assert(attempts@.skip(0) =~= attempts@);
    while rest.len() > 0
        invariant
            0 <= i <= attempts@.len(),
            rest@ == attempts@.skip(i),
            forall|j: int| 0 <= j < i ==> attempts@[j].parsed is Err,
            err@ == error_lines(attempts@.take(i)),
        decreases rest@.len(),
    {
        let attempt = rest.remove(0);
        assert(attempt == attempts@[i]);
        assert(rest@ =~= attempts@.skip(i + 1));
        let ghost done = attempts@.take(i + 1);
        assert(done.drop_last() =~= attempts@.take(i));
        assert(done.last() == attempts@[i]);
        match load_one_config(&mut err, attempt.name.as_str(), attempt.parsed) {
            Some(config) => {
                assert(is_first_match(attempts@, i));
                return Ok(config);
            },
            None => {},
        }
        proof {
            i = i + 1;
        }
    }
    assert(attempts@.take(i) =~= attempts@);
    let message = String::from_str(NO_SCHEMA_MATCHED).concat(err.as_str());
    Err(ConfigError { message })
}

/// Completes a configuration with what is only known once a schema has
/// matched: the size of the tokenizer's vocabulary and the number of the
/// step to profile.
pub fn with_runtime_metadata<A>(
    config: ModelConfig<A>,
    tok_vocab_size: usize,
    profile_step_no: usize,
) -> (r: ModelConfig<A>)
    ensures
        r.model_type == config.model_type,
        r.arch == config.arch,
        r.meta.id == config.meta.id,
        r.meta.vocab_size == config.meta.vocab_size,
        r.meta.max_sequence_length == config.meta.max_sequence_length,
        r.meta.tok_vocab_size == tok_vocab_size,
        r.dtype == config.dtype,
        r.device == config.device,
        r.profile_step_no == profile_step_no,
{
    let mut config = config;
    config.meta.tok_vocab_size = tok_vocab_size;
    config.profile_step_no = profile_step_no;
    config
}

} // verus!
