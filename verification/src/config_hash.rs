//! The hash by which a configuration is told from another: of a text that writes out every
//! setting.

use sha2::Digest;
use vstd::prelude::*;
use vstd::string::*;

use crate::config::{
    AdmissionConfig, BridgeRuntimeKind, Config, ConfigView, LogFormat, ModelConfig,
    ModelConfigView, ModelKind, ObservabilityConfig, ObservabilityConfigView, ServerConfig,
    ServerConfigView,
};
use crate::text;
use crate::views;

verus! {

/// What `format!("{:?}")` writes for a string: the string in quotes, with the characters escaped
/// that do not print as they are.
pub uninterp spec fn str_debug(s: Seq<char>) -> Seq<char>;

/// What `format!("{:?}")` writes for the path that a string names.
pub uninterp spec fn path_debug(s: Seq<char>) -> Seq<char>;

/// The SHA-256 digest of a string of bytes.
pub uninterp spec fn sha256_digest(bytes: Seq<u8>) -> Seq<u8>;

/// What `<str as std::fmt::Debug>::fmt` writes for `s`, which depends on its characters
/// alone; which characters are escaped, and how, is left open.
#[verifier::external_body]
fn debug_of_str(s: &str) -> (quoted: String)
    ensures
        quoted@ == str_debug(s@),
{
    format!("{:?}", s)
}

/// What `<std::path::Path as std::fmt::Debug>::fmt` writes for the path `s`, which depends on its
/// characters alone; which characters are escaped, and how, is left open.
#[verifier::external_body]
fn debug_of_path(s: &str) -> (quoted: String)
    ensures
        quoted@ == path_debug(s@),
{
    format!("{:?}", std::path::Path::new(s))
}

/// `sha2::Sha256::digest`: the SHA-256 digest, 32 bytes that depend on the input bytes alone.
#[verifier::external_body]
fn sha256(bytes: &[u8]) -> (digest: Vec<u8>)
    ensures
        digest@ == sha256_digest(bytes@),
        digest@.len() == 32,
{
    sha2::Sha256::digest(bytes).to_vec()
}

/// The number that bytes write with the least significant one first.
pub open spec fn little_endian(bytes: Seq<u8>) -> nat
    decreases bytes.len(),
{
    if bytes.len() == 0 {
        0
    } else {
        bytes[0] as nat + 256 * little_endian(bytes.drop_first())
    }
}

/// The first eight bytes of a digest as a number, the least significant one first.
pub fn leading_u64(digest: &[u8]) -> (value: u64)
    requires
        digest.len() >= 8,
    ensures
        value == little_endian(digest@.take(8)),
{
    let ghost head = digest@.take(8);
    proof {
        assert(head.skip(8) == Seq::<u8>::empty());
        assert(head.skip(0) == head);
        assert forall|k: int| 0 <= k < 8 implies #[trigger] little_endian(head.skip(k))
            == digest@[k] as nat + 256 * little_endian(head.skip(k + 1)) by {
            assert(head.skip(k).drop_first() == head.skip(k + 1));
        }
    }
    let b7: u64 = digest[7] as u64;
    assert(little_endian(head.skip(7)) == b7);
    let b6: u64 = b7 * 256 + digest[6] as u64;
    assert(little_endian(head.skip(6)) == b6);
    let b5: u64 = b6 * 256 + digest[5] as u64;
    assert(little_endian(head.skip(5)) == b5);
    let b4: u64 = b5 * 256 + digest[4] as u64;
    assert(little_endian(head.skip(4)) == b4);
    let b3: u64 = b4 * 256 + digest[3] as u64;
    assert(little_endian(head.skip(3)) == b3);
    let b2: u64 = b3 * 256 + digest[2] as u64;
    assert(little_endian(head.skip(2)) == b2);
    let b1: u64 = b2 * 256 + digest[1] as u64;
    assert(little_endian(head.skip(1)) == b1);
    let b0: u64 = b1 * 256 + digest[0] as u64;
    assert(little_endian(head.skip(0)) == b0);
    b0
}

/// Texts one after the other, with a comma and a space between.
pub open spec fn comma_joined(items: Seq<Seq<char>>) -> Seq<char>
    decreases items.len(),
{
    if items.len() == 0 {
        Seq::empty()
    } else if items.len() == 1 {
        items[0]
    } else {
        comma_joined(items.drop_last()) + ", "@ + items.last()
    }
}

/// A list of texts in square brackets.
pub open spec fn list_text(items: Seq<Seq<char>>) -> Seq<char> {
    "["@ + comma_joined(items) + "]"@
}

/// A text that may be missing.
pub open spec fn option_text(item: Option<Seq<char>>) -> Seq<char> {
    match item {
        Some(text) => "Some("@ + text + ")"@,
        None => "None"@,
    }
}

pub open spec fn bool_text(value: bool) -> Seq<char> {
    if value {
        "true"@
    } else {
        "false"@
    }
}

pub open spec fn option_str_text(item: Option<Seq<char>>) -> Seq<char> {
    match item {
        Some(text) => option_text(Some(str_debug(text))),
        None => option_text(None),
    }
}

pub open spec fn option_number_text(item: Option<nat>) -> Seq<char> {
    match item {
        Some(number) => option_text(Some(text::decimal(number))),
        None => option_text(None),
    }
}

/// Every setting of the server section.
pub open spec fn server_text(server: ServerConfigView) -> Seq<char> {
    "ServerConfig { listen: "@ + str_debug(server.listen) + ", request_timeout_secs: "@
        + text::decimal(server.request_timeout_secs as nat) + ", shutdown_grace_secs: "@
        + text::decimal(server.shutdown_grace_secs as nat) + ", max_request_bytes: "@
        + text::decimal(server.max_request_bytes as nat) + " }"@
}

pub open spec fn log_format_text(format: LogFormat) -> Seq<char> {
    match format {
        LogFormat::Json => "Json"@,
        LogFormat::Pretty => "Pretty"@,
    }
}

/// Every setting of the observability section.
pub open spec fn observability_text(observability: ObservabilityConfigView) -> Seq<char> {
    "ObservabilityConfig { metrics_listen: "@ + option_str_text(observability.metrics_listen)
        + ", otlp_endpoint: "@ + option_str_text(observability.otlp_endpoint) + ", log_format: "@
        + log_format_text(observability.log_format) + ", log_level: "@ + str_debug(
        observability.log_level,
    ) + " }"@
}

/// Every setting of the admission section.
pub open spec fn admission_text(admission: AdmissionConfig) -> Seq<char> {
    "AdmissionConfig { max_rss_bytes: "@ + option_number_text(
        match admission.max_rss_bytes {
            Some(n) => Some(n as nat),
            None => None,
        },
    ) + ", max_queue_depth: "@ + option_number_text(
        match admission.max_queue_depth {
            Some(n) => Some(n as nat),
            None => None,
        },
    ) + ", rss_sample_interval_ms: "@ + text::decimal(admission.rss_sample_interval_ms as nat)
        + " }"@
}

pub open spec fn kind_text(kind: ModelKind) -> Seq<char> {
    match kind {
        ModelKind::FixedShape => "FixedShape"@,
        ModelKind::Ragged => "Ragged"@,
    }
}

pub open spec fn runtime_text(runtime: BridgeRuntimeKind) -> Seq<char> {
    match runtime {
        BridgeRuntimeKind::Blocking => "Blocking"@,
        BridgeRuntimeKind::DedicatedThread => "DedicatedThread"@,
    }
}

/// The numerals of a list of numbers.
pub open spec fn numerals(numbers: Seq<u32>) -> Seq<Seq<char>> {
    numbers.map_values(|n: u32| text::decimal(n as nat))
}

pub open spec fn buckets_text(buckets: Option<Seq<u32>>) -> Seq<char> {
    match buckets {
        Some(buckets) => option_text(Some(list_text(numerals(buckets)))),
        None => option_text(None),
    }
}

/// Every setting of one model.
pub open spec fn model_text(model: ModelConfigView) -> Seq<char> {
    "ModelConfig { name: "@ + str_debug(model.name) + ", version: "@ + str_debug(model.version)
        + ", path: "@ + path_debug(model.path) + ", kind: "@ + kind_text(model.kind)
        + ", max_batch_size: "@ + text::decimal(model.max_batch_size as nat)
        + ", max_queue_delay_us: "@ + text::decimal(model.max_queue_delay_us as nat)
        + ", intra_op_threads: "@ + text::decimal(model.intra_op_threads as nat)
        + ", queue_capacity: "@ + option_number_text(
        match model.queue_capacity {
            Some(n) => Some(n as nat),
            None => None,
        },
    ) + ", runtime: "@ + runtime_text(model.runtime) + ", seq_len_buckets: "@ + buckets_text(
        model.seq_len_buckets,
    ) + ", requires_attention_mask: "@ + bool_text(model.requires_attention_mask) + " }"@
}

/// Every setting of every model.
pub open spec fn model_texts(models: Seq<ModelConfigView>) -> Seq<Seq<char>> {
    models.map_values(|model: ModelConfigView| model_text(model))
}

/// Every setting of a configuration.
pub open spec fn config_text(config: ConfigView) -> Seq<char> {
    "Config { server: "@ + server_text(config.server) + ", observability: "@ + observability_text(
        config.observability,
    ) + ", admission: "@ + admission_text(config.admission) + ", models: "@ + list_text(
        model_texts(config.models),
    ) + " }"@
}

/// The hash of a configuration: the first eight bytes of the SHA-256 digest of the text that
/// writes out its settings, as a number.
pub open spec fn config_hash(config: ConfigView) -> nat {
    little_endian(sha256_digest(vstd::utf8::encode_utf8(config_text(config))).take(8))
}

fn render_option(item: Option<String>) -> (out: String)
    ensures
        out@ == option_text(views::view_option(item)),
{
    match item {
        Some(text) => {
            let mut out = "Some(".to_string();
            out.append(&text);
            out.append(")");
            out
        },
        None => "None".to_string(),
    }
}

fn render_option_str(item: &Option<String>) -> (out: String)
    ensures
        out@ == option_str_text(views::view_option(*item)),
{
    match item {
        Some(text) => render_option(Some(debug_of_str(text))),
        None => render_option(None),
    }
}

fn render_number(number: u64) -> (out: String)
    ensures
        out@ == text::decimal(number as nat),
{
    let mut out = String::new();
    text::append_decimal(&mut out, number);
    out
}

fn render_option_number(item: Option<u64>) -> (out: String)
    ensures
        out@ == option_number_text(
            match item {
                Some(n) => Some(n as nat),
                None => None,
            },
        ),
{
    match item {
        Some(number) => render_option(Some(render_number(number))),
        None => render_option(None),
    }
}

fn render_list(items: &Vec<String>) -> (out: String)
    ensures
        out@ == list_text(views::view_all(items@)),
{
    let ghost texts = views::view_all(items@);
    let mut joined = String::new();
    let mut i: usize = 0;
    while i < items.len()
        invariant
            i <= items.len(),
            texts == views::view_all(items@),
            joined@ == comma_joined(texts.take(i as int)),
        decreases items.len() - i,
    {
        proof {
            let next = texts.take(i + 1);
            assert(next.drop_last() == texts.take(i as int));
            assert(next.last() == items@[i as int]@);
        }
        if i > 0 {
            joined.append(", ");
        }
        let ghost before = joined@;
        joined.append(&items[i]);
        assert(i == 0 ==> before + items@[0]@ == items@[0]@);
        i = i + 1;
    }
    assert(texts.take(i as int) == texts);
    let mut out = "[".to_string();
    out.append(&joined);
    out.append("]");
    out
}

fn render_server(server: &ServerConfig) -> (out: String)
    ensures
        out@ == server_text(server@),
{
    let mut out = "ServerConfig { listen: ".to_string();
    out.append(&debug_of_str(&server.listen));
    out.append(", request_timeout_secs: ");
    text::append_decimal(&mut out, server.request_timeout_secs);
    out.append(", shutdown_grace_secs: ");
    text::append_decimal(&mut out, server.shutdown_grace_secs);
    out.append(", max_request_bytes: ");
    text::append_decimal(&mut out, server.max_request_bytes as u64);
    out.append(" }");
    out
}

fn render_observability(observability: &ObservabilityConfig) -> (out: String)
    ensures
        out@ == observability_text(observability@),
{
    let mut out = "ObservabilityConfig { metrics_listen: ".to_string();
    out.append(&render_option_str(&observability.metrics_listen));
    out.append(", otlp_endpoint: ");
    out.append(&render_option_str(&observability.otlp_endpoint));
    out.append(", log_format: ");
    match observability.log_format {
        LogFormat::Json => out.append("Json"),
        LogFormat::Pretty => out.append("Pretty"),
    }
    out.append(", log_level: ");
    out.append(&debug_of_str(&observability.log_level));
    out.append(" }");
    out
}

fn render_admission(admission: &AdmissionConfig) -> (out: String)
    ensures
        out@ == admission_text(*admission),
{
    let depth: Option<u64> = match admission.max_queue_depth {
        Some(n) => Some(n as u64),
        None => None,
    };
    let mut out = "AdmissionConfig { max_rss_bytes: ".to_string();
    out.append(&render_option_number(admission.max_rss_bytes));
    out.append(", max_queue_depth: ");
    out.append(&render_option_number(depth));
    out.append(", rss_sample_interval_ms: ");
    text::append_decimal(&mut out, admission.rss_sample_interval_ms);
    out.append(" }");
    out
}

fn render_buckets(buckets: &Option<Vec<u32>>) -> (out: String)
    ensures
        out@ == buckets_text(views::view_option(*buckets)),
{
    match buckets {
        None => render_option(None),
        Some(buckets) => {
            let ghost texts = numerals(buckets@);
            let mut items: Vec<String> = Vec::new();
            let mut i: usize = 0;
            assert(views::view_all(items@) == texts.take(0));
            while i < buckets.len()
                invariant
                    i <= buckets.len(),
                    texts == numerals(buckets@),
                    views::view_all(items@) == texts.take(i as int),
                decreases buckets.len() - i,
            {
                let ghost before = views::view_all(items@);
                let item = render_number(buckets[i] as u64);
                items.push(item);
                assert(views::view_all(items@) == before.push(item@));
                assert(texts.take(i + 1) == before.push(texts[i as int]));
                i = i + 1;
            }
            assert(texts.take(i as int) == texts);
            render_option(Some(render_list(&items)))
        },
    }
}

fn render_model(model: &ModelConfig) -> (out: String)
    ensures
        out@ == model_text(model@),
{
    let capacity: Option<u64> = match model.queue_capacity {
        Some(n) => Some(n as u64),
        None => None,
    };
    let mut out = "ModelConfig { name: ".to_string();
    out.append(&debug_of_str(&model.name));
    out.append(", version: ");
    out.append(&debug_of_str(&model.version));
    out.append(", path: ");
    out.append(&debug_of_path(&model.path));
    out.append(", kind: ");
    match model.kind {
        ModelKind::FixedShape => out.append("FixedShape"),
        ModelKind::Ragged => out.append("Ragged"),
    }
    out.append(", max_batch_size: ");
    text::append_decimal(&mut out, model.max_batch_size as u64);
    out.append(", max_queue_delay_us: ");
    text::append_decimal(&mut out, model.max_queue_delay_us);
    out.append(", intra_op_threads: ");
    text::append_decimal(&mut out, model.intra_op_threads as u64);
    out.append(", queue_capacity: ");
    out.append(&render_option_number(capacity));
    out.append(", runtime: ");
    match model.runtime {
        BridgeRuntimeKind::Blocking => out.append("Blocking"),
        BridgeRuntimeKind::DedicatedThread => out.append("DedicatedThread"),
    }
    out.append(", seq_len_buckets: ");
    out.append(&render_buckets(&model.seq_len_buckets));
    out.append(", requires_attention_mask: ");
    if model.requires_attention_mask {
        out.append("true");
    } else {
        out.append("false");
    }
    out.append(" }");
    out
}

/// Writes out every setting of a configuration.
pub fn render_config(config: &Config) -> (out: String)
    ensures
        out@ == config_text(config@),
{
    let ghost texts = model_texts(config@.models);
    let mut items: Vec<String> = Vec::new();
    let mut i: usize = 0;
    assert(views::view_all(items@) == texts.take(0));
    while i < config.models.len()
        invariant
            i <= config.models.len(),
            texts == model_texts(config@.models),
            views::view_all(items@) == texts.take(i as int),
        decreases config.models.len() - i,
    {
        let ghost before = views::view_all(items@);
        let item = render_model(&config.models[i]);
        items.push(item);
        assert(config@.models[i as int] == config.models@[i as int]@);
        assert(views::view_all(items@) == before.push(item@));
        assert(texts.take(i + 1) == before.push(texts[i as int]));
        i = i + 1;
    }
    assert(texts.take(i as int) == texts);
    let mut out = "Config { server: ".to_string();
    out.append(&render_server(&config.server));
    out.append(", observability: ");
    out.append(&render_observability(&config.observability));
    out.append(", admission: ");
    out.append(&render_admission(&config.admission));
    out.append(", models: ");
    out.append(&render_list(&items));
    out.append(" }");
    out
}

/// The hash of a configuration.
pub fn config_hash_u64(config: &Config) -> (hash: u64)
    ensures
        hash == config_hash(config@),
{
    let text = render_config(config);
    let digest = sha256(text.as_str().as_bytes());
    leading_u64(&digest)
}

/// Configurations that are written out alike have the same hash.
pub proof fn lemma_equal_texts_hash_alike(a: ConfigView, b: ConfigView)
    requires
        config_text(a) == config_text(b),
    ensures
        config_hash(a) == config_hash(b),
{
}

/// The bytes of a number with the least significant one first: each further byte counts 256 times
/// as much as the one before it.
pub proof fn lemma_little_endian_bytes(bytes: Seq<u8>, low: u8)
    ensures
        little_endian(Seq::<u8>::empty()) == 0,
        little_endian(seq![low] + bytes) == low + 256 * little_endian(bytes),
{
    assert((seq![low] + bytes).drop_first() == bytes);
}

/// The hash is read from the first eight bytes of the digest of the text.
pub proof fn lemma_hash_of_a_config(config: ConfigView, digest: Seq<u8>)
    requires
        digest == sha256_digest(vstd::utf8::encode_utf8(config_text(config))),
        digest.len() == 32,
    ensures
        config_hash(config) == digest[0] + 0x100 * digest[1] + 0x1_0000 * digest[2] + 0x100_0000
            * digest[3] + 0x1_0000_0000 * digest[4] + 0x100_0000_0000 * digest[5]
            + 0x1_0000_0000_0000 * digest[6] + 0x100_0000_0000_0000 * digest[7],
{
    let head = digest.take(8);
    assert forall|k: int| 0 <= k < 8 implies #[trigger] little_endian(head.skip(k)) == digest[k]
        + 256 * little_endian(head.skip(k + 1)) by {
        assert(head.skip(k).drop_first() == head.skip(k + 1));
    }
    assert(head.skip(0) == head);
    assert(little_endian(head.skip(8)) == 0);
    assert(little_endian(head.skip(7)) == digest[7]);
    assert(little_endian(head.skip(6)) == digest[6] + 256 * little_endian(head.skip(7)));
    assert(little_endian(head.skip(5)) == digest[5] + 256 * little_endian(head.skip(6)));
    assert(little_endian(head.skip(4)) == digest[4] + 256 * little_endian(head.skip(5)));
    assert(little_endian(head.skip(3)) == digest[3] + 256 * little_endian(head.skip(4)));
    assert(little_endian(head.skip(2)) == digest[2] + 256 * little_endian(head.skip(3)));
    assert(little_endian(head.skip(1)) == digest[1] + 256 * little_endian(head.skip(2)));
    assert(little_endian(head.skip(0)) == digest[0] + 256 * little_endian(head.skip(1)));
}

/// A list is written in square brackets, its items in order with a comma and a space between.
pub proof fn lemma_text_of_a_list(items: Seq<Seq<char>>, item: Seq<char>)
    ensures
        list_text(items) == "["@ + comma_joined(items) + "]"@,
        comma_joined(Seq::<Seq<char>>::empty()) == Seq::<char>::empty(),
        comma_joined(seq![item]) == item,
        items.len() > 0 ==> comma_joined(items.push(item)) == comma_joined(items) + ", "@ + item,
{
    assert(items.push(item).drop_last() == items);
}

/// How the values of settings are written.
pub proof fn lemma_texts_of_values(text: Seq<char>, number: nat, numbers: Seq<u32>)
    ensures
        option_text(None) == "None"@,
        option_text(Some(text)) == "Some("@ + text + ")"@,
        option_str_text(None) == "None"@,
        option_str_text(Some(text)) == "Some("@ + str_debug(text) + ")"@,
        option_number_text(None) == "None"@,
        option_number_text(Some(number)) == "Some("@ + text::decimal(number) + ")"@,
        bool_text(true) == "true"@,
        bool_text(false) == "false"@,
        log_format_text(LogFormat::Json) == "Json"@,
        log_format_text(LogFormat::Pretty) == "Pretty"@,
        kind_text(ModelKind::FixedShape) == "FixedShape"@,
        kind_text(ModelKind::Ragged) == "Ragged"@,
        runtime_text(BridgeRuntimeKind::Blocking) == "Blocking"@,
        runtime_text(BridgeRuntimeKind::DedicatedThread) == "DedicatedThread"@,
        buckets_text(None) == "None"@,
        buckets_text(Some(numbers)) == "Some("@ + list_text(numerals(numbers)) + ")"@,
        numerals(numbers).len() == numbers.len(),
        forall|i: int|
            0 <= i < numbers.len() ==> #[trigger] numerals(numbers)[i] == text::decimal(
                numbers[i] as nat,
            ),
{
}

proof fn lemma_same_between(before: Seq<char>, a: Seq<char>, b: Seq<char>, after: Seq<char>)
    requires
        before + a + after == before + b + after,
    ensures
        a == b,
{
    let x = before + a + after;
    let y = before + b + after;
    assert(x.len() == y.len());
    assert(a == x.subrange(before.len() as int, (before.len() + a.len()) as int));
    assert(b == y.subrange(before.len() as int, (before.len() + b.len()) as int));
}

proof fn lemma_figure_shows(before: Seq<char>, a: nat, b: nat, after: Seq<char>)
    requires
        before + text::decimal(a) + after == before + text::decimal(b) + after,
        a <= u64::MAX,
        b <= u64::MAX,
    ensures
        a == b,
{
    lemma_same_between(before, text::decimal(a), text::decimal(b), after);
    text::lemma_numerals_are_read(a);
    text::lemma_numerals_are_read(b);
}

/// The text of a model names each of its settings, in order, with its value.
pub proof fn lemma_text_of_a_model(model: ModelConfigView)
    ensures
        model_text(model) == "ModelConfig { name: "@ + str_debug(model.name) + ", version: "@
            + str_debug(model.version) + ", path: "@ + path_debug(model.path) + ", kind: "@
            + kind_text(model.kind) + ", max_batch_size: "@ + text::decimal(
            model.max_batch_size as nat,
        ) + ", max_queue_delay_us: "@ + text::decimal(model.max_queue_delay_us as nat)
            + ", intra_op_threads: "@ + text::decimal(model.intra_op_threads as nat)
            + ", queue_capacity: "@ + option_number_text(
            match model.queue_capacity {
                Some(n) => Some(n as nat),
                None => None,
            },
        ) + ", runtime: "@ + runtime_text(model.runtime) + ", seq_len_buckets: "@ + buckets_text(
            model.seq_len_buckets,
        ) + ", requires_attention_mask: "@ + bool_text(model.requires_attention_mask) + " }"@,
{
}

/// The text of the server section names each of its settings, in order, with its value.
pub proof fn lemma_text_of_the_server(server: ServerConfigView)
    ensures
        server_text(server) == "ServerConfig { listen: "@ + str_debug(server.listen)
            + ", request_timeout_secs: "@ + text::decimal(server.request_timeout_secs as nat)
            + ", shutdown_grace_secs: "@ + text::decimal(server.shutdown_grace_secs as nat)
            + ", max_request_bytes: "@ + text::decimal(server.max_request_bytes as nat) + " }"@,
{
}

/// The texts of the other sections name each of their settings, in order, with its value.
pub proof fn lemma_texts_of_sections(
    observability: ObservabilityConfigView,
    admission: AdmissionConfig,
)
    ensures
        observability_text(observability) == "ObservabilityConfig { metrics_listen: "@
            + option_str_text(observability.metrics_listen) + ", otlp_endpoint: "@
            + option_str_text(observability.otlp_endpoint) + ", log_format: "@ + log_format_text(
            observability.log_format,
        ) + ", log_level: "@ + str_debug(observability.log_level) + " }"@,
        admission_text(admission) == "AdmissionConfig { max_rss_bytes: "@ + option_number_text(
            match admission.max_rss_bytes {
                Some(n) => Some(n as nat),
                None => None,
            },
        ) + ", max_queue_depth: "@ + option_number_text(
            match admission.max_queue_depth {
                Some(n) => Some(n as nat),
                None => None,
            },
        ) + ", rss_sample_interval_ms: "@ + text::decimal(admission.rss_sample_interval_ms as nat)
            + " }"@,
{
}

/// The text of a configuration holds those of its sections and, in order, those of its models.
pub proof fn lemma_text_of_a_config(config: ConfigView)
    ensures
        config_text(config) == "Config { server: "@ + server_text(config.server)
            + ", observability: "@ + observability_text(config.observability) + ", admission: "@
            + admission_text(config.admission) + ", models: "@ + list_text(
            model_texts(config.models),
        ) + " }"@,
        model_texts(config.models).len() == config.models.len(),
        forall|i: int|
            0 <= i < config.models.len() ==> #[trigger] model_texts(config.models)[i] == model_text(
                config.models[i],
            ),
{
}

/// A changed batch size of a model changes its text.
pub proof fn lemma_batch_size_of_a_model_shows(a: ModelConfigView, b: ModelConfigView)
    requires
        b == (ModelConfigView { max_batch_size: b.max_batch_size, ..a }),
        model_text(a) == model_text(b),
    ensures
        a == b,
{
    let before = "ModelConfig { name: "@ + str_debug(a.name) + ", version: "@ + str_debug(
        a.version,
    ) + ", path: "@ + path_debug(a.path) + ", kind: "@ + kind_text(a.kind)
        + ", max_batch_size: "@;
    let capacity: Option<nat> = match a.queue_capacity {
        Some(n) => Some(n as nat),
        None => None,
    };
    let after = ", max_queue_delay_us: "@ + text::decimal(a.max_queue_delay_us as nat)
        + ", intra_op_threads: "@ + text::decimal(a.intra_op_threads as nat) + ", queue_capacity: "@
        + option_number_text(capacity) + ", runtime: "@ + runtime_text(a.runtime)
        + ", seq_len_buckets: "@ + buckets_text(a.seq_len_buckets)
        + ", requires_attention_mask: "@ + bool_text(a.requires_attention_mask) + " }"@;
    assert(model_text(a) == before + text::decimal(a.max_batch_size as nat) + after);
    assert(model_text(b) == before + text::decimal(b.max_batch_size as nat) + after);
    lemma_figure_shows(before, a.max_batch_size as nat, b.max_batch_size as nat, after);
}

} // verus!
