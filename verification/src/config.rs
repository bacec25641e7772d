//! Configuration schema, defaults and validation.

use vstd::prelude::*;
use vstd::string::*;

use crate::error::{ConfigError, ConfigErrorView};
use crate::text;
use crate::views;

verus! {

/// The memory budget used where the configuration sets none: 8 GiB.
pub const DEFAULT_RSS_BUDGET_BYTES: u64 = 8589934592;

/// The whole configuration file.
#[derive(Debug, Clone)]
pub struct Config {
    pub server: ServerConfig,
    pub observability: ObservabilityConfig,
    pub admission: AdmissionConfig,
    pub models: Vec<ModelConfig>,
}

#[derive(Debug, Clone)]
pub struct ServerConfig {
    pub listen: String,
    pub request_timeout_secs: u64,
    pub shutdown_grace_secs: u64,
    pub max_request_bytes: usize,
}

#[derive(Debug, Clone)]
pub struct ObservabilityConfig {
    pub metrics_listen: Option<String>,
    pub otlp_endpoint: Option<String>,
    pub log_format: LogFormat,
    pub log_level: String,
}

#[derive(Debug, Clone, Copy, PartialEq, Eq, Structural)]
pub enum LogFormat {
    Json,
    Pretty,
}

#[derive(Debug, Clone)]
pub struct AdmissionConfig {
    pub max_rss_bytes: Option<u64>,
    pub max_queue_depth: Option<usize>,
    pub rss_sample_interval_ms: u64,
}

/// One model to serve. `path` is the file name of the model.
#[derive(Debug, Clone)]
pub struct ModelConfig {
    pub name: String,
    pub version: String,
    pub path: String,
    pub kind: ModelKind,
    pub max_batch_size: usize,
    pub max_queue_delay_us: u64,
    pub intra_op_threads: usize,
    pub queue_capacity: Option<usize>,
    pub runtime: BridgeRuntimeKind,
    pub seq_len_buckets: Option<Vec<u32>>,
    pub requires_attention_mask: bool,
}

#[derive(Debug, Clone, Copy, PartialEq, Eq, Structural)]
pub enum ModelKind {
    FixedShape,
    Ragged,
}

#[derive(Debug, Clone, Copy, PartialEq, Eq, Structural)]
pub enum BridgeRuntimeKind {
    Blocking,
    DedicatedThread,
}

/// What validation has to know of the machine: the complaint that parsing `server.listen` as a
/// socket address gave, if it gave one, and which of the model paths name an existing file.
#[derive(Debug, Clone)]
pub struct HostFacts {
    pub listen_error: Option<String>,
    pub existing_paths: Vec<String>,
}

/// The mathematical value of a [`Config`].
pub ghost struct ConfigView {
    pub server: ServerConfigView,
    pub observability: ObservabilityConfigView,
    pub admission: AdmissionConfig,
    pub models: Seq<ModelConfigView>,
}

pub ghost struct ServerConfigView {
    pub listen: Seq<char>,
    pub request_timeout_secs: u64,
    pub shutdown_grace_secs: u64,
    pub max_request_bytes: usize,
}

pub ghost struct ObservabilityConfigView {
    pub metrics_listen: Option<Seq<char>>,
    pub otlp_endpoint: Option<Seq<char>>,
    pub log_format: LogFormat,
    pub log_level: Seq<char>,
}

pub ghost struct ModelConfigView {
    pub name: Seq<char>,
    pub version: Seq<char>,
    pub path: Seq<char>,
    pub kind: ModelKind,
    pub max_batch_size: usize,
    pub max_queue_delay_us: u64,
    pub intra_op_threads: usize,
    pub queue_capacity: Option<usize>,
    pub runtime: BridgeRuntimeKind,
    pub seq_len_buckets: Option<Seq<u32>>,
    pub requires_attention_mask: bool,
}

pub ghost struct HostFactsView {
    pub listen_error: Option<Seq<char>>,
    pub existing_paths: Seq<Seq<char>>,
}

impl View for Config {
    type V = ConfigView;

    open spec fn view(&self) -> ConfigView {
        ConfigView {
            server: self.server@,
            observability: self.observability@,
            admission: self.admission,
            models: views::view_all(self.models@),
        }
    }
}

impl View for ServerConfig {
    type V = ServerConfigView;

    open spec fn view(&self) -> ServerConfigView {
        ServerConfigView {
            listen: self.listen@,
            request_timeout_secs: self.request_timeout_secs,
            shutdown_grace_secs: self.shutdown_grace_secs,
            max_request_bytes: self.max_request_bytes,
        }
    }
}

impl View for ObservabilityConfig {
    type V = ObservabilityConfigView;

    open spec fn view(&self) -> ObservabilityConfigView {
        ObservabilityConfigView {
            metrics_listen: views::view_option(self.metrics_listen),
            otlp_endpoint: views::view_option(self.otlp_endpoint),
            log_format: self.log_format,
            log_level: self.log_level@,
        }
    }
}

impl View for ModelConfig {
    type V = ModelConfigView;

    open spec fn view(&self) -> ModelConfigView {
        ModelConfigView {
            name: self.name@,
            version: self.version@,
            path: self.path@,
            kind: self.kind,
            max_batch_size: self.max_batch_size,
            max_queue_delay_us: self.max_queue_delay_us,
            intra_op_threads: self.intra_op_threads,
            queue_capacity: self.queue_capacity,
            runtime: self.runtime,
            seq_len_buckets: views::view_option(self.seq_len_buckets),
            requires_attention_mask: self.requires_attention_mask,
        }
    }
}

impl View for HostFacts {
    type V = HostFactsView;

    open spec fn view(&self) -> HostFactsView {
        HostFactsView {
            listen_error: views::view_option(self.listen_error),
            existing_paths: views::view_all(self.existing_paths@),
        }
    }
}

/// Every element is smaller than all that follow it.
pub open spec fn strictly_ascending(buckets: Seq<u32>) -> bool {
    forall|i: int, j: int| 0 <= i < j < buckets.len() ==> buckets[i] < buckets[j]
}

impl ModelConfigView {
    /// `name/version`.
    pub open spec fn ident(self) -> Seq<char> {
        self.name + "/"@ + self.version
    }

    /// The pair by which the model is registered.
    pub open spec fn key(self) -> (Seq<char>, Seq<char>) {
        (self.name, self.version)
    }

    /// What is wrong with the sequence-length buckets, if anything is.
    pub open spec fn bucket_problem(self) -> Option<Seq<char>> {
        match (self.kind, self.seq_len_buckets) {
            (ModelKind::FixedShape, Some(_)) => Some(
                self.ident() + ": fixed_shape model must not declare seq_len_buckets"@,
            ),
            (ModelKind::FixedShape, None) => None,
            (ModelKind::Ragged, None) => Some(
                self.ident() + ": ragged model must declare seq_len_buckets"@,
            ),
            (ModelKind::Ragged, Some(buckets)) => if buckets.len() == 0 {
                Some(self.ident() + ": seq_len_buckets must be non-empty"@)
            } else if !strictly_ascending(buckets) {
                Some(self.ident() + ": seq_len_buckets must be strictly ascending"@)
            } else if buckets.last() > 65_536 {
                Some(
                    self.ident() + ": seq_len_buckets values must be ≤ 65536, got "@
                        + text::decimal(buckets.last() as nat),
                )
            } else {
                None
            },
        }
    }

    /// The complaint that validation makes of this model, if it makes one.
    pub open spec fn problem(self, existing_paths: Seq<Seq<char>>) -> Option<Seq<char>> {
        if !(1 <= self.max_batch_size <= 1024) {
            Some(
                self.ident() + ": max_batch_size must be in [1, 1024], got "@ + text::decimal(
                    self.max_batch_size as nat,
                ),
            )
        } else if !(100 <= self.max_queue_delay_us <= 1_000_000) {
            Some(
                self.ident() + ": max_queue_delay_us must be in [100, 1_000_000], got "@
                    + text::decimal(self.max_queue_delay_us as nat),
            )
        } else if self.bucket_problem() is Some {
            self.bucket_problem()
        } else if !existing_paths.contains(self.path) {
            Some(self.ident() + ": model file does not exist: "@ + self.path)
        } else {
            None
        }
    }

    /// The rules that a model has to keep.
    pub open spec fn valid(self, existing_paths: Seq<Seq<char>>) -> bool {
        &&& 1 <= self.max_batch_size <= 1024
        &&& 100 <= self.max_queue_delay_us <= 1_000_000
        &&& self.kind == ModelKind::FixedShape ==> self.seq_len_buckets is None
        &&& self.kind == ModelKind::Ragged ==> {
            &&& self.seq_len_buckets is Some
            &&& self.seq_len_buckets->0.len() > 0
            &&& strictly_ascending(self.seq_len_buckets->0)
            &&& forall|i: int|
                0 <= i < self.seq_len_buckets->0.len() ==> self.seq_len_buckets->0[i] <= 65_536
        }
        &&& existing_paths.contains(self.path)
    }
}

impl ConfigView {
    /// An earlier model has the name and version of model `i`.
    pub open spec fn repeats(self, i: int) -> bool {
        exists|j: int| 0 <= j < i && #[trigger] self.models[j].key() == self.models[i].key()
    }

    /// The complaint that validation makes of model `i`, if it makes one.
    pub open spec fn model_problem(self, i: int, existing_paths: Seq<Seq<char>>) -> Option<
        Seq<char>,
    > {
        if self.repeats(i) {
            Some(
                "duplicate (name, version): ("@ + self.models[i].name + ", "@
                    + self.models[i].version + ")"@,
            )
        } else {
            self.models[i].problem(existing_paths)
        }
    }

    /// The complaint about the first model, from `i` on, that has one.
    pub open spec fn first_problem(self, i: int, existing_paths: Seq<Seq<char>>) -> Option<
        Seq<char>,
    >
        decreases self.models.len() - i,
    {
        if i >= self.models.len() {
            None
        } else if self.model_problem(i, existing_paths) is Some {
            self.model_problem(i, existing_paths)
        } else {
            self.first_problem(i + 1, existing_paths)
        }
    }

    /// The complaint that validation makes of the configuration, if it makes one.
    pub open spec fn problem(self, facts: HostFactsView) -> Option<Seq<char>> {
        match facts.listen_error {
            Some(error) => Some("server.listen: "@ + error),
            None => self.first_problem(0, facts.existing_paths),
        }
    }

    /// What validation answers.
    pub open spec fn validation(self, facts: HostFactsView) -> Result<(), ConfigErrorView> {
        match self.problem(facts) {
            Some(text) => Err(ConfigErrorView::Validation(text)),
            None => Ok(()),
        }
    }

    /// The rules that a configuration has to keep: `server.listen` is a socket address, no two
    /// models share name and version, and every model is valid.
    pub open spec fn valid(self, facts: HostFactsView) -> bool {
        &&& facts.listen_error is None
        &&& forall|i: int, j: int|
            0 <= i < j < self.models.len() ==> #[trigger] self.models[i].key()
                != #[trigger] self.models[j].key()
        &&& forall|i: int|
            0 <= i < self.models.len() ==> #[trigger] self.models[i].valid(facts.existing_paths)
    }
}

impl ModelConfig {
    /// `name/version`.
    pub fn ident(&self) -> (ident: String)
        ensures
            ident@ == self@.ident(),
    {
        let mut ident = text::joined(&self.name, "/");
        ident.append(&self.version);
        ident
    }

    fn complaint(&self, text: &str) -> (complaint: String)
        ensures
            complaint@ == self@.ident() + text@,
    {
        let mut complaint = self.ident();
        complaint.append(text);
        complaint
    }

    fn numbered_complaint(&self, text: &str, number: u64) -> (complaint: String)
        ensures
            complaint@ == self@.ident() + text@ + text::decimal(number as nat),
    {
        let mut complaint = self.complaint(text);
        text::append_decimal(&mut complaint, number);
        complaint
    }

    fn check_buckets(&self) -> (result: Result<(), String>)
        ensures
            match result {
                Ok(()) => self@.bucket_problem() is None,
                Err(text) => self@.bucket_problem() == Some(text@),
            },
    {
        match (self.kind, &self.seq_len_buckets) {
            (ModelKind::FixedShape, Some(_)) => Err(
                self.complaint(": fixed_shape model must not declare seq_len_buckets"),
            ),
            (ModelKind::FixedShape, None) => Ok(()),
            (ModelKind::Ragged, None) => Err(
                self.complaint(": ragged model must declare seq_len_buckets"),
            ),
            (ModelKind::Ragged, Some(buckets)) => {
                if buckets.len() == 0 {
                    return Err(self.complaint(": seq_len_buckets must be non-empty"));
                }
                let mut i: usize = 1;
                while i < buckets.len()
                    invariant
                        1 <= i <= buckets.len(),
                        self.kind == ModelKind::Ragged,
                        self.seq_len_buckets == Some(*buckets),
                        forall|a: int, b: int| 0 <= a < b < i ==> buckets@[a] < buckets@[b],
                    decreases buckets.len() - i,
                {
                    if buckets[i - 1] >= buckets[i] {
                        assert(!strictly_ascending(buckets@));
                        return Err(
                            self.complaint(": seq_len_buckets must be strictly ascending"),
                        );
                    }
                    i = i + 1;
                }
                let max: u32 = buckets[buckets.len() - 1];
                if max > 65_536 {
                    return Err(
                        self.numbered_complaint(
                            ": seq_len_buckets values must be ≤ 65536, got ",
                            max as u64,
                        ),
                    );
                }
                Ok(())
            },
        }
    }

    /// Checks the rules of one model, given the paths that exist.
    pub fn validate(&self, existing_paths: &Vec<String>) -> (result: Result<(), ConfigError>)
        ensures
            match self@.problem(views::view_all(existing_paths@)) {
                Some(text) => result matches Err(error) && error@ == ConfigErrorView::Validation(
                    text,
                ),
                None => result is Ok,
            },
    {
        if !(1 <= self.max_batch_size && self.max_batch_size <= 1024) {
            return Err(
                ConfigError::Validation(
                    self.numbered_complaint(
                        ": max_batch_size must be in [1, 1024], got ",
                        self.max_batch_size as u64,
                    ),
                ),
            );
        }
        if !(100 <= self.max_queue_delay_us && self.max_queue_delay_us <= 1_000_000) {
            return Err(
                ConfigError::Validation(
                    self.numbered_complaint(
                        ": max_queue_delay_us must be in [100, 1_000_000], got ",
                        self.max_queue_delay_us,
                    ),
                ),
            );
        }
        match self.check_buckets() {
            Ok(()) => {},
            Err(text) => {
                return Err(ConfigError::Validation(text));
            },
        }
        if !text::contains_text(existing_paths, &self.path) {
            let mut complaint = self.complaint(": model file does not exist: ");
            complaint.append(&self.path);
            return Err(ConfigError::Validation(complaint));
        }
        Ok(())
    }

    /// The depth of the model's request queue: the configured one, or twice the batch size.
    pub fn resolved_queue_capacity(&self) -> (capacity: usize)
        ensures
            capacity == self@.resolved_queue_capacity(),
    {
        match self.queue_capacity {
            Some(capacity) => capacity,
            None => match self.max_batch_size.checked_mul(2) {
                Some(capacity) => capacity,
                None => usize::MAX,
            },
        }
    }
}

impl ModelConfigView {
    /// The depth of the model's request queue: the configured one, or twice the batch size, as
    /// far as a `usize` holds that.
    pub open spec fn resolved_queue_capacity(self) -> usize {
        match self.queue_capacity {
            Some(capacity) => capacity,
            None => if self.max_batch_size * 2 <= usize::MAX {
                (self.max_batch_size * 2) as usize
            } else {
                usize::MAX
            },
        }
    }
}

impl Config {
    /// Whether one of the first `i` models has the name and version of model `i`.
    fn repeats(&self, i: usize) -> (repeated: bool)
        requires
            i < self.models.len(),
        ensures
            repeated == self@.repeats(i as int),
    {
        let mut j: usize = 0;
        while j < i
            invariant
                j <= i < self.models.len(),
                forall|k: int|
                    0 <= k < j ==> #[trigger] self@.models[k].key() != self@.models[i as int].key(),
            decreases i - j,
        {
            assert(self@.models[j as int] == self.models[j as int]@);
            assert(self@.models[i as int] == self.models[i as int]@);
            if text::text_eq(&self.models[j].name, &self.models[i].name) && text::text_eq(
                &self.models[j].version,
                &self.models[i].version,
            ) {
                assert(self@.models[j as int].key() == self@.models[i as int].key());
                return true;
            }
            j = j + 1;
        }
        false
    }

    /// Checks the configuration against its rules, and reports the first that is broken: the
    /// listen address, then model by model, for each its name and version and then its own rules.
    pub fn validate(&self, facts: &HostFacts) -> (result: Result<(), ConfigError>)
        ensures
            views::view_result(result) == self@.validation(facts@),
    {
        match &facts.listen_error {
            Some(error) => {
                return Err(ConfigError::Validation(text::joined("server.listen: ", error)));
            },
            None => {},
        }
        let mut i: usize = 0;
        while i < self.models.len()
            invariant
                i <= self.models.len(),
                facts.listen_error is None,
                self@.first_problem(0, facts@.existing_paths) == self@.first_problem(
                    i as int,
                    facts@.existing_paths,
                ),
            decreases self.models.len() - i,
        {
            let model = &self.models[i];
            assert(self@.models[i as int] == model@);
            if self.repeats(i) {
                let mut complaint = text::joined("duplicate (name, version): (", &model.name);
                complaint.append(", ");
                complaint.append(&model.version);
                complaint.append(")");
                return Err(ConfigError::Validation(complaint));
            }
            match model.validate(&facts.existing_paths) {
                Ok(()) => {},
                Err(error) => {
                    return Err(error);
                },
            }
            i = i + 1;
        }
        Ok(())
    }
}

impl ConfigView {
    /// The sum of the batch sizes of the first `n` models.
    pub open spec fn batch_sum(self, n: int) -> nat
        decreases n,
    {
        if n <= 0 {
            0
        } else {
            self.batch_sum(n - 1) + self.models[n - 1].max_batch_size as nat
        }
    }

    /// The queue-depth limit in force: the configured one, or ten times the sum of the batch
    /// sizes.
    pub open spec fn queue_depth_limit(self) -> nat {
        match self.admission.max_queue_depth {
            Some(limit) => limit as nat,
            None => self.batch_sum(self.models.len() as int) * 10,
        }
    }
}

impl Config {
    /// The memory limit in force.
    pub fn rss_limit(&self) -> (limit: u64)
        ensures
            limit == (match self.admission.max_rss_bytes {
                Some(limit) => limit,
                None => DEFAULT_RSS_BUDGET_BYTES,
            }),
            self.admission.max_rss_bytes is None ==> limit == 8 * 1024 * 1024 * 1024,
    {
        match self.admission.max_rss_bytes {
            Some(limit) => limit,
            None => DEFAULT_RSS_BUDGET_BYTES,
        }
    }

    /// The queue-depth limit in force, or `None` where a `usize` cannot hold it.
    pub fn queue_depth_limit(&self) -> (limit: Option<usize>)
        ensures
            limit == (if self@.queue_depth_limit() <= usize::MAX {
                Some(self@.queue_depth_limit() as usize)
            } else {
                None
            }),
    {
        match self.admission.max_queue_depth {
            Some(limit) => {
                return Some(limit);
            },
            None => {},
        }
        let mut sum: usize = 0;
        let mut i: usize = 0;
        while i < self.models.len()
            invariant
                i <= self.models.len(),
                self.admission.max_queue_depth is None,
                sum == self@.batch_sum(i as int),
            decreases self.models.len() - i,
        {
            assert(self@.models[i as int] == self.models[i as int]@);
            proof {
                lemma_batch_sum_grows(self@, i + 1, self.models.len() as int);
            }
            match sum.checked_add(self.models[i].max_batch_size) {
                Some(next) => {
                    sum = next;
                },
                None => {
                    return None;
                },
            }
            i = i + 1;
        }
        sum.checked_mul(10)
    }
}

proof fn lemma_batch_sum_grows(config: ConfigView, i: int, j: int)
    requires
        0 <= i <= j,
    ensures
        config.batch_sum(i) <= config.batch_sum(j),
    decreases j - i,
{
    if i < j {
        lemma_batch_sum_grows(config, i, j - 1);
    }
}

impl Default for LogFormat {
    fn default() -> (format: LogFormat)
        ensures
            format == LogFormat::Json,
    {
        LogFormat::Json
    }
}

impl Default for BridgeRuntimeKind {
    fn default() -> (kind: BridgeRuntimeKind)
        ensures
            kind == BridgeRuntimeKind::Blocking,
    {
        BridgeRuntimeKind::Blocking
    }
}

impl Default for ObservabilityConfig {
    /// No endpoints, JSON logs and an empty level.
    fn default() -> (observability: ObservabilityConfig)
        ensures
            observability@ == (ObservabilityConfigView {
                metrics_listen: None,
                otlp_endpoint: None,
                log_format: LogFormat::Json,
                log_level: Seq::<char>::empty(),
            }),
    {
        ObservabilityConfig {
            metrics_listen: None,
            otlp_endpoint: None,
            log_format: LogFormat::Json,
            log_level: String::new(),
        }
    }
}

impl Default for AdmissionConfig {
    /// No limits set, and an interval of zero.
    fn default() -> (admission: AdmissionConfig)
        ensures
            admission.max_rss_bytes is None,
            admission.max_queue_depth is None,
            admission.rss_sample_interval_ms == 0,
    {
        AdmissionConfig { max_rss_bytes: None, max_queue_depth: None, rss_sample_interval_ms: 0 }
    }
}

/// `server.request_timeout_secs` where the file leaves it out.
pub fn default_request_timeout_secs() -> (secs: u64)
    ensures
        secs == 30,
{
    30
}

/// `server.shutdown_grace_secs` where the file leaves it out.
pub fn default_shutdown_grace_secs() -> (secs: u64)
    ensures
        secs == 30,
{
    30
}

/// `server.max_request_bytes` where the file leaves it out: 64 MiB.
pub fn default_max_request_bytes() -> (bytes: usize)
    ensures
        bytes == 64 * 1024 * 1024,
{
    64 * 1024 * 1024
}

/// `admission.rss_sample_interval_ms` where the section leaves it out.
pub fn default_rss_sample_interval_ms() -> (ms: u64)
    ensures
        ms == 100,
{
    100
}

/// `observability.log_level` where the section leaves it out.
pub fn default_log_level() -> (level: String)
    ensures
        level@ == "info"@,
{
    "info".to_string()
}

/// A model's `version` where the file leaves it out.
pub fn default_version() -> (version: String)
    ensures
        version@ == "1"@,
{
    "1".to_string()
}

/// A model draws no complaint exactly when it keeps all its rules.
pub proof fn lemma_model_problem_iff_invalid(model: ModelConfigView, existing_paths: Seq<Seq<char>>)
    ensures
        model.problem(existing_paths) is None <==> model.valid(existing_paths),
{
    if model.problem(existing_paths) is None && model.kind == ModelKind::Ragged {
        let buckets = model.seq_len_buckets->0;
        assert forall|i: int| 0 <= i < buckets.len() implies buckets[i] <= 65_536 by {
            if i < buckets.len() - 1 {
                assert(buckets[i] < buckets[buckets.len() - 1]);
            }
        }
    }
}

proof fn lemma_first_problem(config: ConfigView, i: int, existing_paths: Seq<Seq<char>>)
    requires
        0 <= i <= config.models.len(),
    ensures
        config.first_problem(i, existing_paths) is None <==> forall|j: int|
            i <= j < config.models.len() ==> config.model_problem(j, existing_paths) is None,
    decreases config.models.len() - i,
{
    if i < config.models.len() {
        lemma_first_problem(config, i + 1, existing_paths);
    }
}

/// Validation accepts a configuration exactly when its listen address parses, its models have
/// pairwise different names and versions, and each model keeps its own rules.
pub proof fn lemma_validation_accepts_exactly_the_valid(config: ConfigView, facts: HostFactsView)
    ensures
        config.validation(facts) is Ok <==> config.valid(facts),
{
    let paths = facts.existing_paths;
    lemma_first_problem(config, 0, paths);
    if config.validation(facts) is Ok {
        assert forall|i: int, j: int| 0 <= i < j < config.models.len() implies
            #[trigger] config.models[i].key() != #[trigger] config.models[j].key() by {
            assert(config.model_problem(j, paths) is None);
        }
        assert forall|i: int| 0 <= i < config.models.len() implies
            #[trigger] config.models[i].valid(paths) by {
            assert(config.model_problem(i, paths) is None);
            lemma_model_problem_iff_invalid(config.models[i], paths);
        }
    }
    if config.valid(facts) {
        assert forall|j: int| 0 <= j < config.models.len() implies
            config.model_problem(j, paths) is None by {
            lemma_model_problem_iff_invalid(config.models[j], paths);
        }
    }
}

/// A model is known by its name and its version.
pub proof fn lemma_names_of_a_model(model: ModelConfigView)
    ensures
        model.key() == (model.name, model.version),
        model.ident() == model.name + "/"@ + model.version,
{
}

/// The value of a configured model is the value of each of its settings.
pub proof fn lemma_value_of_a_model(model: ModelConfig)
    ensures
        model@.name == model.name@,
        model@.version == model.version@,
        model@.path == model.path@,
        model@.kind == model.kind,
        model@.max_batch_size == model.max_batch_size,
        model@.max_queue_delay_us == model.max_queue_delay_us,
        model@.intra_op_threads == model.intra_op_threads,
        model@.queue_capacity == model.queue_capacity,
        model@.runtime == model.runtime,
        model.seq_len_buckets matches Some(buckets) ==> model@.seq_len_buckets == Some(buckets@),
        model.seq_len_buckets is None ==> model@.seq_len_buckets is None,
        model@.requires_attention_mask == model.requires_attention_mask,
{
}

/// The value of a configuration is the value of each of its settings.
pub proof fn lemma_value_of_a_config(config: Config, facts: HostFacts)
    ensures
        config@.server.listen == config.server.listen@,
        config@.server.request_timeout_secs == config.server.request_timeout_secs,
        config@.server.shutdown_grace_secs == config.server.shutdown_grace_secs,
        config@.server.max_request_bytes == config.server.max_request_bytes,
        config@.observability.log_format == config.observability.log_format,
        config@.observability.log_level == config.observability.log_level@,
        config@.observability.metrics_listen == views::view_option(
            config.observability.metrics_listen,
        ),
        config@.observability.otlp_endpoint == views::view_option(
            config.observability.otlp_endpoint,
        ),
        config@.admission == config.admission,
        config@.models.len() == config.models@.len(),
        forall|i: int| 0 <= i < config.models@.len() ==> #[trigger] config@.models[i]
            == config.models@[i]@,
        facts@.listen_error == views::view_option(facts.listen_error),
        facts@.existing_paths.len() == facts.existing_paths@.len(),
        forall|i: int| 0 <= i < facts.existing_paths@.len() ==> #[trigger] facts@.existing_paths[i]
            == facts.existing_paths@[i]@,
{
}

/// The rules of a model: between 1 and 1024 requests in a batch; between 100 microseconds and a
/// second of delay; buckets for a ragged model and none for another, at least one, in strictly
/// ascending order and none above 65536; and a file that exists.
pub proof fn lemma_rules_of_a_model(model: ModelConfigView, existing_paths: Seq<Seq<char>>)
    ensures
        model.problem(existing_paths) is None <==> {
            &&& 1 <= model.max_batch_size <= 1024
            &&& 100 <= model.max_queue_delay_us <= 1_000_000
            &&& match (model.kind, model.seq_len_buckets) {
                (ModelKind::FixedShape, None) => true,
                (ModelKind::FixedShape, Some(_)) => false,
                (ModelKind::Ragged, None) => false,
                (ModelKind::Ragged, Some(buckets)) => {
                    &&& buckets.len() > 0
                    &&& forall|i: int, j: int|
                        0 <= i < j < buckets.len() ==> buckets[i] < buckets[j]
                    &&& forall|i: int| 0 <= i < buckets.len() ==> buckets[i] <= 65_536
                },
            }
            &&& exists|i: int| 0 <= i < existing_paths.len() && existing_paths[i] == model.path
        },
{
    lemma_model_problem_iff_invalid(model, existing_paths);
}

/// What a model that breaks a rule is told: the first broken one, in the order of the rules.
pub proof fn lemma_complaints_about_a_model(
    model: ModelConfigView,
    existing_paths: Seq<Seq<char>>,
    buckets: Seq<u32>,
)
    ensures
        ({
            let who = model.name + "/"@ + model.version;
            let told = model.problem(existing_paths);
            let sized = 1 <= model.max_batch_size <= 1024;
            let timed = 100 <= model.max_queue_delay_us <= 1_000_000;
            let ascending = forall|i: int, j: int|
                0 <= i < j < buckets.len() ==> buckets[i] < buckets[j];
            &&& !sized ==> told == Some(
                who + ": max_batch_size must be in [1, 1024], got "@ + text::decimal(
                    model.max_batch_size as nat,
                ),
            )
            &&& sized && !timed ==> told == Some(
                who + ": max_queue_delay_us must be in [100, 1_000_000], got "@ + text::decimal(
                    model.max_queue_delay_us as nat,
                ),
            )
            &&& sized && timed && model.kind == ModelKind::FixedShape && model.seq_len_buckets
                is Some ==> told == Some(
                who + ": fixed_shape model must not declare seq_len_buckets"@,
            )
            &&& sized && timed && model.kind == ModelKind::Ragged && model.seq_len_buckets is None
                ==> told == Some(who + ": ragged model must declare seq_len_buckets"@)
            &&& sized && timed && model.kind == ModelKind::Ragged && model.seq_len_buckets == Some(
                buckets,
            ) ==> {
                &&& buckets.len() == 0 ==> told == Some(
                    who + ": seq_len_buckets must be non-empty"@,
                )
                &&& buckets.len() > 0 && !ascending ==> told == Some(
                    who + ": seq_len_buckets must be strictly ascending"@,
                )
                &&& buckets.len() > 0 && ascending && buckets[buckets.len() - 1] > 65_536
                    ==> told == Some(
                    who + ": seq_len_buckets values must be ≤ 65536, got "@ + text::decimal(
                        buckets[buckets.len() - 1] as nat,
                    ),
                )
            }
            &&& sized && timed && model.kind == ModelKind::FixedShape && model.seq_len_buckets
                is None && !existing_paths.contains(model.path) ==> told == Some(
                who + ": model file does not exist: "@ + model.path,
            )
            &&& sized && timed && model.kind == ModelKind::Ragged && model.seq_len_buckets == Some(
                buckets,
            ) && buckets.len() > 0 && ascending && buckets[buckets.len() - 1] <= 65_536
                && !existing_paths.contains(model.path) ==> told == Some(
                who + ": model file does not exist: "@ + model.path,
            )
        }),
{
    if model.kind == ModelKind::Ragged && model.seq_len_buckets == Some(buckets) && buckets.len()
        > 0 {
        assert(buckets.last() == buckets[buckets.len() - 1]);
    }
}

/// A configuration is accepted exactly when its listen address parses, no two of its models have
/// both name and version in common, and no model breaks a rule of its own.
pub proof fn lemma_rules_of_a_config(config: ConfigView, facts: HostFactsView)
    ensures
        config.validation(facts) is Ok <==> {
            &&& facts.listen_error is None
            &&& forall|i: int, j: int|
                0 <= i < j < config.models.len() ==> (#[trigger] config.models[i]).name != (
                #[trigger] config.models[j]).name || config.models[i].version
                    != config.models[j].version
            &&& forall|i: int|
                0 <= i < config.models.len() ==> (#[trigger] config.models[i]).problem(
                    facts.existing_paths,
                ) is None
        },
{
    lemma_validation_accepts_exactly_the_valid(config, facts);
    assert forall|i: int| 0 <= i < config.models.len() implies ((
    #[trigger] config.models[i]).problem(facts.existing_paths) is None <==> config.models[i].valid(
        facts.existing_paths,
    )) by {
        lemma_model_problem_iff_invalid(config.models[i], facts.existing_paths);
    }
    if config.validation(facts) is Ok {
        assert forall|i: int, j: int| 0 <= i < j < config.models.len() implies (
        #[trigger] config.models[i]).name != (#[trigger] config.models[j]).name
            || config.models[i].version != config.models[j].version by {
            assert(config.models[i].key() != config.models[j].key());
        }
        assert forall|i: int| 0 <= i < config.models.len() implies (
        #[trigger] config.models[i]).problem(facts.existing_paths) is None by {
            assert(config.models[i].valid(facts.existing_paths));
        }
    }
}

proof fn lemma_first_problem_is(
    config: ConfigView,
    from: int,
    i: int,
    existing_paths: Seq<Seq<char>>,
)
    requires
        0 <= from <= i < config.models.len(),
        forall|j: int| from <= j < i ==> config.model_problem(j, existing_paths) is None,
        config.model_problem(i, existing_paths) is Some,
    ensures
        config.first_problem(from, existing_paths) == config.model_problem(i, existing_paths),
    decreases i - from,
{
    if from < i {
        lemma_first_problem_is(config, from + 1, i, existing_paths);
    }
}

/// What a configuration that breaks a rule is told: first of its listen address; then of the
/// first model that has the name and version of an earlier one, or breaks a rule of its own.
pub proof fn lemma_complaints_about_a_config(config: ConfigView, facts: HostFactsView, i: int)
    ensures
        facts.listen_error matches Some(error) ==> config.validation(facts) == Err::<
            (),
            ConfigErrorView,
        >(ConfigErrorView::Validation("server.listen: "@ + error)),
        facts.listen_error is None && 0 <= i < config.models.len() && (forall|j: int|
            0 <= j < i ==> (#[trigger] config.models[j]).problem(facts.existing_paths) is None) && (
        forall|j: int, k: int|
            0 <= j < k < i ==> (#[trigger] config.models[j]).name != (
            #[trigger] config.models[k]).name || config.models[j].version
                != config.models[k].version) ==> {
            &&& (exists|j: int|
                0 <= j < i && (#[trigger] config.models[j]).name == config.models[i].name
                    && config.models[j].version == config.models[i].version) ==> config.validation(
                facts,
            ) == Err::<(), ConfigErrorView>(
                ConfigErrorView::Validation(
                    "duplicate (name, version): ("@ + config.models[i].name + ", "@
                        + config.models[i].version + ")"@,
                ),
            )
            &&& (forall|j: int|
                0 <= j < i ==> (#[trigger] config.models[j]).name != config.models[i].name
                    || config.models[j].version != config.models[i].version) ==> (
            config.models[i].problem(facts.existing_paths) matches Some(text)
                ==> config.validation(facts) == Err::<(), ConfigErrorView>(
                ConfigErrorView::Validation(text),
            ))
        },
{
    let paths = facts.existing_paths;
    if facts.listen_error is None && 0 <= i < config.models.len() && (forall|j: int|
        0 <= j < i ==> (#[trigger] config.models[j]).problem(paths) is None) && (forall|
        j: int,
        k: int,
    |
        0 <= j < k < i ==> (#[trigger] config.models[j]).name != (#[trigger] config.models[k]).name
            || config.models[j].version != config.models[k].version) {
        assert forall|k: int| 0 <= k < i implies config.model_problem(k, paths) is None by {
            assert(!config.repeats(k)) by {
                if config.repeats(k) {
                    let j = choose|j: int|
                        0 <= j < k && #[trigger] config.models[j].key() == config.models[k].key();
                    assert(config.models[j].name == config.models[k].name);
                }
            }
            assert(config.models[k].problem(paths) is None);
        }
        let again = exists|j: int|
            0 <= j < i && (#[trigger] config.models[j]).name == config.models[i].name
                && config.models[j].version == config.models[i].version;
        if again {
            let j = choose|j: int|
                0 <= j < i && (#[trigger] config.models[j]).name == config.models[i].name
                    && config.models[j].version == config.models[i].version;
            assert(config.models[j].key() == config.models[i].key());
            assert(config.repeats(i));
            lemma_first_problem_is(config, 0, i, paths);
        } else {
            assert(!config.repeats(i)) by {
                if config.repeats(i) {
                    let j = choose|j: int|
                        0 <= j < i && #[trigger] config.models[j].key() == config.models[i].key();
                    assert(config.models[j].name == config.models[i].name);
                }
            }
            if config.models[i].problem(paths) is Some {
                lemma_first_problem_is(config, 0, i, paths);
            }
        }
    }
}

proof fn lemma_batch_sum_of_beginning(config: ConfigView, longer: ConfigView, n: int)
    requires
        0 <= n <= config.models.len() <= longer.models.len(),
        forall|i: int| 0 <= i < config.models.len() ==> longer.models[i] == config.models[i],
    ensures
        longer.batch_sum(n) == config.batch_sum(n),
    decreases n,
{
    if n > 0 {
        lemma_batch_sum_of_beginning(config, longer, n - 1);
    }
}

/// Without a configured limit, no model means no queue, and each further model adds ten times its
/// batch size to what may wait; a configured limit is taken as it is.
pub proof fn lemma_each_model_adds_to_the_queue(
    config: ConfigView,
    longer: ConfigView,
    model: ModelConfigView,
)
    requires
        longer.models == config.models.push(model),
        config.admission.max_queue_depth is None,
        longer.admission.max_queue_depth is None,
    ensures
        longer.queue_depth_limit() == config.queue_depth_limit() + 10 * model.max_batch_size,
        config.models.len() == 0 ==> config.queue_depth_limit() == 0,
{
    lemma_batch_sum_of_beginning(config, longer, config.models.len() as int);
}

/// A configured limit or capacity is taken as it is; without one, a model queues two batches, as
/// far as a `usize` counts them.
pub proof fn lemma_configured_figures(config: ConfigView, model: ModelConfigView)
    ensures
        config.admission.max_queue_depth matches Some(limit) ==> config.queue_depth_limit() == limit,
        model.queue_capacity matches Some(capacity) ==> model.resolved_queue_capacity() == capacity,
        model.queue_capacity is None && 2 * model.max_batch_size <= usize::MAX
            ==> model.resolved_queue_capacity() == 2 * model.max_batch_size,
        model.queue_capacity is None && 2 * model.max_batch_size > usize::MAX
            ==> model.resolved_queue_capacity() == usize::MAX,
{
}

} // verus!
