//! Settings of a llama.cpp worker.
use vstd::prelude::*;
use vstd::string::*;

verus! {

/// The bits of the temperature that is used unless another is set: seven tenths.
pub const DEFAULT_TEMPERATURE_BITS: u32 = 0x3f33_3333;

/// Settings of a llama.cpp worker. Temperatures are given by the bits of their IEEE 754
/// single-precision representation.
#[derive(Debug)]
pub struct LlamaCppConfig {
    pub model_path: String,
    pub context_size: u32,
    pub batch_size: u32,
    pub threads: usize,
    pub threads_batch: usize,
    pub gpu_layers: u32,
    pub default_max_tokens: u32,
    pub default_temperature_bits: u32,
    pub seed: u32,
    pub chat_template: Option<String>,
    /// Text behind the generation prompt that the model goes on from.
    pub assistant_prefix: Option<String>,
    pub logs_enabled: bool,
}

/// Whether the counts that must not be zero are not.
pub open spec fn counts_are_positive(config: LlamaCppConfig) -> bool {
    &&& config.context_size > 0
    &&& config.batch_size > 0
    &&& config.threads > 0
    &&& config.threads_batch > 0
    &&& config.default_max_tokens > 0
}

/// How many threads are used on a machine that runs `available` at once: two are left for
/// audio and the user interface, and no more than six are taken.
pub open spec fn default_threads(available: usize) -> usize {
    if available <= 3 {
        1
    } else if available >= 8 {
        6
    } else {
        (available - 2) as usize
    }
}

/// Whether the bits are those of a finite number that is not negative. Negative zero is
/// not negative.
pub open spec fn is_temperature(bits: u32) -> bool {
    bits < 0x7f80_0000 || bits == 0x8000_0000
}

/// Whether the bits are those of zero.
pub open spec fn is_zero(bits: u32) -> bool {
    bits == 0 || bits == 0x8000_0000
}

/// Why a worker could not be made.
#[derive(Debug)]
pub enum LlamaCppBuildError {
    /// The model's file is not there.
    ModelNotFound(String),
    /// A setting contradicts another, or llama.cpp cannot take it.
    InvalidConfig(String),
    /// The worker could not start.
    Worker(String),
}

/// What a [`LlamaCppBuildError`] says.
pub enum BuildErrorModel {
    ModelNotFound(Seq<char>),
    InvalidConfig(Seq<char>),
    Worker(Seq<char>),
}

impl View for LlamaCppBuildError {
    type V = BuildErrorModel;

    open spec fn view(&self) -> BuildErrorModel {
        match self {
            LlamaCppBuildError::ModelNotFound(path) => BuildErrorModel::ModelNotFound(path@),
            LlamaCppBuildError::InvalidConfig(reason) => BuildErrorModel::InvalidConfig(reason@),
            LlamaCppBuildError::Worker(message) => BuildErrorModel::Worker(message@),
        }
    }
}

/// What an error tells.
pub open spec fn error_text(error: BuildErrorModel) -> Seq<char> {
    match error {
        BuildErrorModel::ModelNotFound(path) => "GGUF model not found: "@ + path,
        BuildErrorModel::InvalidConfig(reason) => "invalid llama.cpp configuration: "@ + reason,
        BuildErrorModel::Worker(message) => "failed to initialize llama.cpp worker: "@ + message,
    }
}

impl LlamaCppBuildError {
    /// What the error tells.
    pub fn message(&self) -> (text: String)
        ensures
            text@ == error_text(self@),
    {
        let (mut text, detail) = match self {
            LlamaCppBuildError::ModelNotFound(path) => ("GGUF model not found: ".to_owned(), path),
            LlamaCppBuildError::InvalidConfig(reason) => (
                "invalid llama.cpp configuration: ".to_owned(),
                reason,
            ),
            LlamaCppBuildError::Worker(message) => (
                "failed to initialize llama.cpp worker: ".to_owned(),
                message,
            ),
        };
        text.append(detail.as_str());
        text
    }
}

/// What is wrong with a config, if anything; `model_is_file` tells whether the model is
/// there.
pub open spec fn config_fault(config: LlamaCppConfig, model_is_file: bool) -> Option<
    BuildErrorModel,
> {
    if !model_is_file {
        Some(BuildErrorModel::ModelNotFound(config.model_path@))
    } else if config.batch_size > config.context_size {
        Some(BuildErrorModel::InvalidConfig("batch size cannot exceed context size"@))
    } else if !is_temperature(config.default_temperature_bits) {
        Some(BuildErrorModel::InvalidConfig("temperature must be finite and non-negative"@))
    } else if config.threads > i32::MAX || config.threads_batch > i32::MAX {
        Some(BuildErrorModel::InvalidConfig("thread count exceeds llama.cpp's supported range"@))
    } else {
        None
    }
}

impl LlamaCppConfig {
    /// Settings for the model at `model_path`, on a machine that runs `available` threads
    /// at once, or four where that is not known.
    pub fn new(model_path: &str, available: Option<usize>) -> (config: LlamaCppConfig)
        ensures
            config.model_path@ == model_path@,
            config.context_size == 4096,
            config.batch_size == 512,
            config.threads == default_threads(
                match available {
                    Some(n) => n,
                    None => 4,
                },
            ),
            config.threads_batch == config.threads,
            config.gpu_layers == 0,
            config.default_max_tokens == 256,
            config.default_temperature_bits == DEFAULT_TEMPERATURE_BITS,
            config.seed == 0xC0FFEE,
            config.chat_template is None,
            config.assistant_prefix is None,
            !config.logs_enabled,
            counts_are_positive(config),
    {
        let available: usize = match available {
            Some(n) => n,
            None => 4,
        };
        let threads: usize = if available <= 3 {
            1
        } else if available >= 8 {
            6
        } else {
            available - 2
        };
        LlamaCppConfig {
            model_path: model_path.to_owned(),
            context_size: 4096,
            batch_size: 512,
            threads,
            threads_batch: threads,
            gpu_layers: 0,
            default_max_tokens: 256,
            default_temperature_bits: DEFAULT_TEMPERATURE_BITS,
            seed: 0xC0FFEE,
            chat_template: None,
            assistant_prefix: None,
            logs_enabled: false,
        }
    }

    /// The model's path.
    pub fn model_path(&self) -> (path: &str)
        ensures
            path@ == self.model_path@,
    {
        self.model_path.as_str()
    }

    /// Sets how many tokens the context holds.
    pub fn with_context_size(self, context_size: u32) -> (config: LlamaCppConfig)
        requires
            context_size > 0,
        ensures
            config == (LlamaCppConfig { context_size, ..self }),
    {
        LlamaCppConfig { context_size, ..self }
    }

    /// Sets how many tokens are decoded at once.
    pub fn with_batch_size(self, batch_size: u32) -> (config: LlamaCppConfig)
        requires
            batch_size > 0,
        ensures
            config == (LlamaCppConfig { batch_size, ..self }),
    {
        LlamaCppConfig { batch_size, ..self }
    }

    /// Sets the threads for decoding and for prompts.
    pub fn with_threads(self, threads: usize, threads_batch: usize) -> (config: LlamaCppConfig)
        requires
            threads > 0,
            threads_batch > 0,
        ensures
            config == (LlamaCppConfig { threads, threads_batch, ..self }),
    {
        LlamaCppConfig { threads, threads_batch, ..self }
    }

    /// Asks for this many layers to run on the GPU.
    pub fn with_gpu_layers(self, gpu_layers: u32) -> (config: LlamaCppConfig)
        ensures
            config == (LlamaCppConfig { gpu_layers, ..self }),
    {
        LlamaCppConfig { gpu_layers, ..self }
    }

    /// Sets what is used where a generation does not say.
    pub fn with_generation_defaults(
        self,
        default_max_tokens: u32,
        default_temperature_bits: u32,
        seed: u32,
    ) -> (config: LlamaCppConfig)
        requires
            default_max_tokens > 0,
        ensures
            config == (LlamaCppConfig {
                default_max_tokens,
                default_temperature_bits,
                seed,
                ..self
            }),
    {
        LlamaCppConfig { default_max_tokens, default_temperature_bits, seed, ..self }
    }

    /// Overrides the chat template of the model.
    pub fn with_chat_template(self, chat_template: &str) -> (config: LlamaCppConfig)
        ensures
            config.chat_template matches Some(set) && set@ == chat_template@,
            config == (LlamaCppConfig { chat_template: config.chat_template, ..self }),
    {
        LlamaCppConfig { chat_template: Some(chat_template.to_owned()), ..self }
    }

    /// Sets text behind the generation prompt that the model goes on from.
    pub fn with_assistant_prefix(self, prefix: &str) -> (config: LlamaCppConfig)
        ensures
            config.assistant_prefix matches Some(set) && set@ == prefix@,
            config == (LlamaCppConfig { assistant_prefix: config.assistant_prefix, ..self }),
    {
        LlamaCppConfig { assistant_prefix: Some(prefix.to_owned()), ..self }
    }

    /// Turns llama.cpp's own logs on or off.
    pub fn with_logs_enabled(self, logs_enabled: bool) -> (config: LlamaCppConfig)
        ensures
            config == (LlamaCppConfig { logs_enabled, ..self }),
    {
        LlamaCppConfig { logs_enabled, ..self }
    }

    /// Checks the settings before a worker starts.
    pub fn validate(&self, model_is_file: bool) -> (valid: Result<(), LlamaCppBuildError>)
        ensures
            config_fault(*self, model_is_file) == (match valid {
                Ok(_) => None,
                Err(error) => Some(error@),
            }),
    {
        if !model_is_file {
            return Err(LlamaCppBuildError::ModelNotFound(self.model_path.clone()));
        }
        if self.batch_size > self.context_size {
            return Err(
                LlamaCppBuildError::InvalidConfig(
                    "batch size cannot exceed context size".to_owned(),
                ),
            );
        }
        if self.default_temperature_bits >= 0x7f80_0000 && self.default_temperature_bits
            != 0x8000_0000 {
            return Err(
                LlamaCppBuildError::InvalidConfig(
                    "temperature must be finite and non-negative".to_owned(),
                ),
            );
        }
        if self.threads > i32::MAX as usize || self.threads_batch > i32::MAX as usize {
            return Err(
                LlamaCppBuildError::InvalidConfig(
                    "thread count exceeds llama.cpp's supported range".to_owned(),
                ),
            );
        }
        Ok(())
    }
}

/// At least one thread and at most six are used, two are left to others where there are
/// more than three, and a machine that runs more threads never uses fewer.
pub proof fn threads_leave_room(available: usize, more: usize)
    requires
        available <= more,
    ensures
        1 <= default_threads(available) <= 6,
        available >= 3 ==> default_threads(available) <= available - 2,
        3 <= available <= 8 ==> default_threads(available) == available - 2,
        default_threads(available) <= default_threads(more),
{
}

/// A config is taken exactly where its model is there, a batch fits the context, its
/// temperature is a number that is not negative, and the engine can count its threads; a
/// missing model is told by its path before anything else.
pub proof fn faulty_configs_are_refused(config: LlamaCppConfig, model_is_file: bool)
    ensures
        config_fault(config, model_is_file) is None <==> model_is_file && config.batch_size
            <= config.context_size && (config.default_temperature_bits < 0x7f80_0000
            || config.default_temperature_bits == 0x8000_0000) && config.threads <= 0x7fff_ffff
            && config.threads_batch <= 0x7fff_ffff,
        !model_is_file ==> config_fault(config, model_is_file) == Some(
            BuildErrorModel::ModelNotFound(config.model_path@),
        ),
        model_is_file && config.batch_size > config.context_size ==> config_fault(
            config,
            model_is_file,
        ) == Some(BuildErrorModel::InvalidConfig("batch size cannot exceed context size"@)),
        model_is_file && config.batch_size <= config.context_size && config_fault(
            config,
            model_is_file,
        ) is Some ==> config_fault(config, model_is_file) == Some(
            BuildErrorModel::InvalidConfig(
                if config.default_temperature_bits < 0x7f80_0000
                    || config.default_temperature_bits == 0x8000_0000 {
                    "thread count exceeds llama.cpp's supported range"@
                } else {
                    "temperature must be finite and non-negative"@
                },
            ),
        ),
{
}

/// An error says what failed and then why.
pub proof fn errors_end_with_the_reason(reason: Seq<char>)
    ensures
        error_text(BuildErrorModel::ModelNotFound(reason)) == "GGUF model not found: "@ + reason,
        error_text(BuildErrorModel::InvalidConfig(reason))
            == "invalid llama.cpp configuration: "@ + reason,
        error_text(BuildErrorModel::Worker(reason))
            == "failed to initialize llama.cpp worker: "@ + reason,
{
}

} // verus!
