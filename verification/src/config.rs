//! The configurations of the networks.

use crate::vocab::LoadError;
use candle_transformers::models::marian::Config;
use candle_transformers::models::whisper;
use serde_json::Value;
use vstd::prelude::*;
use vstd::string::*;

verus! {

/// A JSON value.
#[verifier::external_type_specification]
#[verifier::external_body]
pub struct ExValue(serde_json::Value);

/// The configuration of a Marian network.
#[verifier::external_type_specification]
#[verifier::external_body]
pub struct ExConfig(candle_transformers::models::marian::Config);

/// The configuration of a Whisper network.
#[verifier::external_type_specification]
#[verifier::external_body]
pub struct ExWhisperConfig(candle_transformers::models::whisper::Config);

/// The value that `serde_json::from_str` reads from a text; nothing if it refuses the text.
pub uninterp spec fn json_value(text: Seq<char>) -> Option<Value>;

/// The fields of a JSON value that is an object; nothing for any other value.
pub uninterp spec fn fields(value: Value) -> Option<Map<Seq<char>, Value>>;

/// The JSON object with the given fields.
pub uninterp spec fn object(m: Map<Seq<char>, Value>) -> Value;

/// The JSON value that stands for a truth value.
pub uninterp spec fn truth(b: bool) -> Value;

/// The configuration that `serde_json::from_value` reads from a value; nothing if it refuses
/// the value.
pub uninterp spec fn config_in(value: Value) -> Option<Config>;

/// The configuration of a Whisper network that `serde_json::from_str` reads from a text; nothing
/// if it refuses the text.
pub uninterp spec fn whisper_config_in(text: Seq<char>) -> Option<whisper::Config>;

/// What a `whisper::Config` says of the number of attention heads of the encoder and of the
/// decoder, and of the width of the network.
pub uninterp spec fn whisper_config_sizes(config: whisper::Config) -> (usize, usize, usize);

/// What a `whisper::Config` says of the numbers of layers of the encoder and of the decoder.
pub uninterp spec fn whisper_config_layers(config: whisper::Config) -> (usize, usize);

/// What a `marian::Config` says of the number of attention heads of the decoder, of the width
/// of the network and of the numbers of layers of the encoder and of the decoder.
pub uninterp spec fn config_sizes(config: Config) -> (usize, usize, usize, usize);

/// What a `marian::Config` says of the inner widths of the layers of the encoder and of the
/// decoder, and whether it asks for gated inner layers, the activation `Activation::Swiglu`.
pub uninterp spec fn config_inner(config: Config) -> (usize, usize, bool);

/// The numbers that a configuration gives to the first and to the last token of a text.
pub uninterp spec fn config_ids(config: Config) -> (u32, u32);

/// `serde_json::from_str` for any JSON value, which is named [`json_value`].
#[verifier::external_body]
fn read_json(text: &str) -> (r: Result<Value, serde_json::Error>)
    ensures
        match r {
            Ok(value) => json_value(text@) == Some(value),
            Err(_) => json_value(text@) is None,
        },
{
    serde_json::from_str::<Value>(text)
}

/// `Value::as_object` and `Map::contains_key`: whether a value is an object with a field of
/// the given name.
#[verifier::external_body]
fn has_field(value: &Value, name: &str) -> (b: bool)
    ensures
        b == (fields(*value) matches Some(m) && m.contains_key(name@)),
{
    value.as_object().is_some_and(|o| o.contains_key(name))
}

/// `Value::as_object_mut` and `Map::insert`: gives a field of an object a truth value. A value
/// that is no object stays as it is.
#[verifier::external_body]
fn set_field(value: &mut Value, name: String, b: bool)
    ensures
        match fields(*old(value)) {
            Some(m) => {
                &&& *final(value) == object(m.insert(name@, truth(b)))
                &&& fields(*final(value)) == Some(m.insert(name@, truth(b)))
            },
            None => *final(value) == *old(value),
        },
{
    if let Some(o) = value.as_object_mut() {
        o.insert(name, Value::Bool(b));
    }
}

/// `serde_json::from_value` for a `marian::Config`, which is named [`config_in`].
#[verifier::external_body]
fn read_config(value: Value) -> (r: Result<Config, serde_json::Error>)
    ensures
        match r {
            Ok(config) => config_in(value) == Some(config),
            Err(_) => config_in(value) is None,
        },
{
    serde_json::from_value::<Config>(value)
}

/// Reads `decoder_start_token_id` and `eos_token_id` of a `marian::Config`, which are named
/// [`config_ids`].
#[verifier::external_body]
pub(crate) fn read_config_ids(config: &Config) -> (r: (u32, u32))
    ensures
        r == config_ids(*config),
{
    (config.decoder_start_token_id, config.eos_token_id)
}

/// `serde_json::from_str` for a `whisper::Config`, which is named [`whisper_config_in`].
#[verifier::external_body]
fn read_whisper_config(text: &str) -> (r: Result<whisper::Config, serde_json::Error>)
    ensures
        match r {
            Ok(config) => whisper_config_in(text@) == Some(config),
            Err(_) => whisper_config_in(text@) is None,
        },
{
    serde_json::from_str::<whisper::Config>(text)
}

/// Reads `encoder_attention_heads`, `decoder_attention_heads` and `d_model` of a
/// `whisper::Config`, which are named [`whisper_config_sizes`].
#[verifier::external_body]
pub(crate) fn read_whisper_config_sizes(config: &whisper::Config) -> (r: (usize, usize, usize))
    ensures
        r == whisper_config_sizes(*config),
{
    (config.encoder_attention_heads, config.decoder_attention_heads, config.d_model)
}

/// Reads `encoder_layers` and `decoder_layers` of a `whisper::Config`, which are named
/// [`whisper_config_layers`].
#[verifier::external_body]
pub(crate) fn read_whisper_config_layers(config: &whisper::Config) -> (r: (usize, usize))
    ensures
        r == whisper_config_layers(*config),
{
    (config.encoder_layers, config.decoder_layers)
}

/// Reads `decoder_attention_heads`, `d_model`, `encoder_layers` and `decoder_layers` of a
/// `marian::Config`, which are named [`config_sizes`].
#[verifier::external_body]
pub(crate) fn read_config_sizes(config: &Config) -> (r: (usize, usize, usize, usize))
    ensures
        r == config_sizes(*config),
{
    let (heads, width) = (config.decoder_attention_heads, config.d_model);
    (heads, width, config.encoder_layers, config.decoder_layers)
}

/// Reads `encoder_ffn_dim`, `decoder_ffn_dim` and `activation_function` of a `marian::Config`,
/// which are named [`config_inner`].
#[verifier::external_body]
pub(crate) fn read_config_inner(config: &Config) -> (r: (usize, usize, bool))
    ensures
        r == config_inner(*config),
{
    let gated = config.activation_function == candle_nn::Activation::Swiglu;
    (config.encoder_ffn_dim, config.decoder_ffn_dim, gated)
}

/// Reads the configuration of a recognition network.
pub fn parse_whisper_config(text: &str) -> (r: Result<whisper::Config, LoadError>)
    ensures
        match whisper_config_in(text@) {
            Some(config) => r == Ok::<whisper::Config, LoadError>(config),
            None => r matches Err(LoadError::Config(_)),
        },
{
    match read_whisper_config(text) {
        Ok(config) => Ok(config),
        Err(e) => Err(LoadError::Config(e)),
    }
}

/// The field that older configurations lack.
pub open spec fn shared_field() -> Seq<char> {
    "share_encoder_decoder_embeddings"@
}

/// A value with the field that it may lack: an object without the field gets it with the value
/// true, and any other value stays as it is.
pub open spec fn completed(value: Value) -> Value {
    match fields(value) {
        Some(m) => if m.contains_key(shared_field()) {
            value
        } else {
            object(m.insert(shared_field(), truth(true)))
        },
        None => value,
    }
}

/// Gives an object the field that it may lack.
pub fn complete(value: Value) -> (r: Value)
    ensures
        r == completed(value),
        match fields(value) {
            Some(m) => {
                &&& fields(r) is Some
                &&& fields(r).unwrap().contains_key(shared_field())
                &&& forall|name: Seq<char>|
                    name != shared_field() ==> (#[trigger] fields(r).unwrap().contains_key(name)
                        <==> m.contains_key(name))
                &&& forall|name: Seq<char>| #[trigger]
                    m.contains_key(name) ==> fields(r).unwrap()[name] == m[name]
                &&& !m.contains_key(shared_field()) ==> fields(r).unwrap()[shared_field()] == truth(
                    true,
                )
            },
            None => fields(r) is None,
        },
{
    let mut value = value;
    if !has_field(&value, "share_encoder_decoder_embeddings") {
        set_field(&mut value, String::from_str("share_encoder_decoder_embeddings"), true);
    }
    value
}

/// Reads the configuration of a translation network.
///
/// A configuration that does not say whether the embeddings are shared is read as if it said
/// that they are.
pub fn parse_config(text: &str) -> (r: Result<Config, LoadError>)
    ensures
        match json_value(text@) {
            Some(value) => match config_in(completed(value)) {
                Some(config) => r == Ok::<Config, LoadError>(config),
                None => r matches Err(LoadError::Config(_)),
            },
            None => r matches Err(LoadError::ConfigSyntax(_)),
        },
{
    match read_json(text) {
        Ok(value) => {
            let value = complete(value);
            match read_config(value) {
                Ok(config) => Ok(config),
                Err(e) => Err(LoadError::Config(e)),
            }
        },
        Err(e) => Err(LoadError::ConfigSyntax(e)),
    }
}

/// The values that a JSON array holds; nothing for any other value.
pub uninterp spec fn items(value: Value) -> Option<Seq<Value>>;

/// `Value::get`: a field of an object.
#[verifier::external_body]
fn field<'a>(value: &'a Value, name: &str) -> (r: Option<&'a Value>)
    ensures
        match r {
            Some(v) => fields(*value) matches Some(m) && m.contains_key(name@) && m[name@] == *v,
            None => !(fields(*value) matches Some(m) && m.contains_key(name@)),
        },
{
    value.get(name)
}

/// `Value::as_array`, with its values copied: what an array holds, which is named [`items`].
#[verifier::external_body]
fn array_items(value: &Value) -> (r: Option<Vec<Value>>)
    ensures
        match r {
            Some(v) => items(*value) == Some(v@),
            None => items(*value) is None,
        },
{
    value.as_array().cloned()
}

/// The values of the given rows, one after the other. A row that is no array counts as empty.
pub open spec fn joined_rows(rows: Seq<Value>) -> Seq<Value>
    decreases rows.len(),
{
    if rows.len() == 0 {
        seq![]
    } else {
        joined_rows(rows.drop_last()) + match items(rows.last()) {
            Some(row) => row,
            None => seq![],
        }
    }
}

/// The mel filters that a JSON value holds: the rows of its field "mel_filters". There are none
/// if the field is missing or is no array, or if no row holds anything.
pub open spec fn filters_in(value: Option<Value>) -> Option<Seq<Value>> {
    match value {
        Some(v) => match fields(v) {
            Some(m) => if m.contains_key("mel_filters"@) {
                match items(m["mel_filters"@]) {
                    Some(rows) => if joined_rows(rows).len() > 0 {
                        Some(joined_rows(rows))
                    } else {
                        None
                    },
                    None => None,
                }
            } else {
                None
            },
            None => None,
        },
        None => None,
    }
}

/// Reads the mel filters from the configuration of a preprocessor, as JSON values, row by row.
/// Where there are none they have to be computed.
pub fn mel_filter_values(text: &str) -> (r: Option<Vec<Value>>)
    ensures
        match r {
            Some(v) => filters_in(json_value(text@)) == Some(v@),
            None => filters_in(json_value(text@)) is None,
        },
{
    let value = match read_json(text) {
        Ok(value) => value,
        Err(_) => return None,
    };
    let filters = match field(&value, "mel_filters") {
        Some(filters) => filters,
        None => return None,
    };
    let rows = match array_items(filters) {
        Some(rows) => rows,
        None => return None,
    };
    let mut r: Vec<Value> = Vec::new();
    let n: usize = rows.len();
    for i in 0..n
        invariant
            n == rows@.len(),
            r@ == joined_rows(rows@.take(i as int)),
    {
        assert(rows@.take(i + 1).drop_last() =~= rows@.take(i as int));
        match array_items(&rows[i]) {
            Some(row) => {
                let mut row = row;
                r.append(&mut row);
            },
            None => {
                assert(r@ + Seq::<Value>::empty() =~= r@);
            },
        }
    }
    assert(rows@.take(n as int) =~= rows@);
    if r.len() == 0 {
        None
    } else {
        Some(r)
    }
}

/// Only an object that lacks the field is changed, and only by that field: it is added with the
/// value true. A configuration that has it keeps what it says.
pub proof fn only_the_missing_field_is_added(value: Value)
    ensures
        fields(value) is None ==> completed(value) == value,
        fields(value) matches Some(m) ==> {
            &&& m.contains_key("share_encoder_decoder_embeddings"@) ==> completed(value) == value
            &&& !m.contains_key("share_encoder_decoder_embeddings"@) ==> completed(value) == object(
                m.insert("share_encoder_decoder_embeddings"@, truth(true)),
            )
        },
{
}

/// Rows are joined one after the other, each in its own order; what is no row adds nothing.
pub proof fn rows_are_joined_in_order(a: Seq<Value>, b: Seq<Value>, row: Value)
    ensures
        joined_rows(Seq::<Value>::empty()).len() == 0,
        joined_rows(a + b) == joined_rows(a) + joined_rows(b),
        items(row) matches Some(values) ==> joined_rows(a.push(row)) == joined_rows(a) + values,
        items(row) is None ==> joined_rows(a.push(row)) == joined_rows(a),
    decreases b.len(),
{
    assert(a.push(row).drop_last() =~= a);
    assert(joined_rows(a) + Seq::<Value>::empty() =~= joined_rows(a));
    if b.len() == 0 {
        assert(a + b =~= a);
        assert(joined_rows(a) + joined_rows(b) =~= joined_rows(a));
    } else {
        rows_are_joined_in_order(a, b.drop_last(), row);
        assert((a + b).drop_last() =~= a + b.drop_last());
        assert((a + b).last() == b.last());
        assert(joined_rows(a + b) =~= joined_rows(a) + joined_rows(b));
    }
}

/// There are filters exactly if the field for them is an array with something in its rows; then
/// they are all that is in them.
pub proof fn filters_are_the_joined_rows(value: Value, m: Map<Seq<char>, Value>, rows: Seq<Value>)
    requires
        fields(value) == Some(m),
    ensures
        filters_in(None) is None,
        !m.contains_key("mel_filters"@) ==> filters_in(Some(value)) is None,
        m.contains_key("mel_filters"@) && items(m["mel_filters"@]) is None ==> filters_in(
            Some(value),
        ) is None,
        m.contains_key("mel_filters"@) && items(m["mel_filters"@]) == Some(rows) ==> {
            &&& joined_rows(rows).len() == 0 ==> filters_in(Some(value)) is None
            &&& joined_rows(rows).len() > 0 ==> filters_in(Some(value)) == Some(joined_rows(rows))
        },
{
}

/// A value that is no object has no filters.
pub proof fn only_objects_have_filters(value: Value)
    requires
        fields(value) is None,
    ensures
        filters_in(Some(value)) is None,
{
}

} // verus!
