use vstd::prelude::*;
use crate::core_value::SerdeCoreValue;
use crate::errors::{ModelError, ModelErrorView, ModelResult};
use crate::text::{decimal, decimal_text};

verus! {

/// The settings that every converter shares.
#[derive(Debug)]
pub struct ConverterConfig {
    pub max_direct_conversion_size: usize,
    pub strict_validation: bool,
    pub pretty_output: bool,
    pub encoding: String,
    pub conversion_timeout_ms: u64,
}

impl Default for ConverterConfig {
    /// Ten megabytes at most, strict validation, compact output, UTF-8, and
    /// thirty seconds.
    fn default() -> (r: Self)
        ensures
            r.max_direct_conversion_size == 10 * 1024 * 1024,
            r.strict_validation,
            !r.pretty_output,
            r.encoding@ == "UTF-8"@,
            r.conversion_timeout_ms == 30_000,
    {
        ConverterConfig {
            max_direct_conversion_size: 10 * 1024 * 1024,
            strict_validation: true,
            pretty_output: false,
            encoding: String::from_str("UTF-8"),
            conversion_timeout_ms: 30_000,
        }
    }
}

impl Clone for ConverterConfig {
    fn clone(&self) -> (r: Self)
        ensures
            r.max_direct_conversion_size == self.max_direct_conversion_size,
            r.strict_validation == self.strict_validation,
            r.pretty_output == self.pretty_output,
            r.encoding@ == self.encoding@,
            r.conversion_timeout_ms == self.conversion_timeout_ms,
    {
        ConverterConfig {
            max_direct_conversion_size: self.max_direct_conversion_size,
            strict_validation: self.strict_validation,
            pretty_output: self.pretty_output,
            encoding: self.encoding.clone(),
            conversion_timeout_ms: self.conversion_timeout_ms,
        }
    }
}

/// The settings of a JSON converter.
#[derive(Debug)]
pub struct JsonConverterConfig {
    pub base: ConverterConfig,
    pub allow_comments: bool,
    pub allow_trailing_commas: bool,
    pub indent_size: usize,
}

impl Default for JsonConverterConfig {
    /// The shared defaults, no comments, no trailing commas, and an indent of two.
    fn default() -> (r: Self)
        ensures
            r.base.max_direct_conversion_size == 10 * 1024 * 1024,
            r.base.strict_validation,
            !r.base.pretty_output,
            r.base.encoding@ == "UTF-8"@,
            r.base.conversion_timeout_ms == 30_000,
            !r.allow_comments,
            !r.allow_trailing_commas,
            r.indent_size == 2,
    {
        JsonConverterConfig {
            base: ConverterConfig::default(),
            allow_comments: false,
            allow_trailing_commas: false,
            indent_size: 2,
        }
    }
}

impl Clone for JsonConverterConfig {
    fn clone(&self) -> (r: Self)
        ensures
            r.base.max_direct_conversion_size == self.base.max_direct_conversion_size,
            r.base.strict_validation == self.base.strict_validation,
            r.base.pretty_output == self.base.pretty_output,
            r.base.encoding@ == self.base.encoding@,
            r.base.conversion_timeout_ms == self.base.conversion_timeout_ms,
            r.allow_comments == self.allow_comments,
            r.allow_trailing_commas == self.allow_trailing_commas,
            r.indent_size == self.indent_size,
    {
        JsonConverterConfig {
            base: self.base.clone(),
            allow_comments: self.allow_comments,
            allow_trailing_commas: self.allow_trailing_commas,
            indent_size: self.indent_size,
        }
    }
}

/// Turning values of a library type into an outside form and back.
pub trait DataConverter<T> {
    type Input;

    type Output;

    fn from_external(&self, input: Self::Input) -> ModelResult<T>;

    fn to_external(&self, value: &T) -> ModelResult<Self::Output>;

    fn from_external_batch(&self, inputs: Vec<Self::Input>) -> ModelResult<Vec<T>>;

    fn to_external_batch(&self, values: &[T]) -> ModelResult<Vec<Self::Output>>;
}

/// A converter to and from JSON text.
pub trait JsonConverter<T>: DataConverter<T, Input = String, Output = String> {
    fn to_json_pretty(&self, value: &T) -> ModelResult<String>;
}

/// The message for a text longer than the converter takes.
pub open spec fn too_large_message(len: nat, max: nat) -> Seq<char> {
    "JSON too large: "@ + decimal(len) + " bytes > "@ + decimal(max) + " bytes"@
}

/// The converter between values and JSON text.  The text itself is read and
/// written by the JSON parser and printer; this type holds the settings and
/// the rules around them.
pub struct SerdeJsonConverter {
    config: JsonConverterConfig,
}

impl SerdeJsonConverter {
    /// The settings in use.
    pub closed spec fn settings(&self) -> JsonConverterConfig {
        self.config
    }

    /// A converter with the default settings.
    pub fn new() -> (r: Self)
        ensures
            r.settings().base.max_direct_conversion_size == 10 * 1024 * 1024,
            r.settings().base.strict_validation,
            !r.settings().base.pretty_output,
            r.settings().base.encoding@ == "UTF-8"@,
            r.settings().base.conversion_timeout_ms == 30_000,
            !r.settings().allow_comments,
            !r.settings().allow_trailing_commas,
            r.settings().indent_size == 2,
    {
        SerdeJsonConverter { config: JsonConverterConfig::default() }
    }

    /// A converter with these settings.
    pub fn new_with_config(config: JsonConverterConfig) -> (r: Self)
        ensures
            r.settings() == config,
    {
        SerdeJsonConverter { config }
    }

    /// The settings in use.
    pub fn config(&self) -> (r: &JsonConverterConfig)
        ensures
            *r == self.settings(),
    {
        &self.config
    }

    /// Whether output is written in the pretty form.
    pub fn pretty_output(&self) -> (r: bool)
        ensures
            r == self.settings().base.pretty_output,
    {
        self.config.base.pretty_output
    }

    /// Refuses a text longer, in bytes, than the settings allow.
    pub fn check_input_size(&self, input: &str) -> (r: ModelResult<()>)
        ensures
            input.len() <= self.settings().base.max_direct_conversion_size ==> r is Ok,
            input.len() > self.settings().base.max_direct_conversion_size ==> (
            r matches Err(e) && e@ == ModelErrorView::InvalidData(
                too_large_message(
                    input.len() as nat,
                    self.settings().base.max_direct_conversion_size as nat,
                ),
            )),
    {
        let len = input.len();
        let max = self.config.base.max_direct_conversion_size;
        if len > max {
            let mut m = String::from_str("JSON too large: ");
            let a = decimal_text(len);
            m.append(a.as_str());
            m.append(" bytes > ");
            let b = decimal_text(max);
            m.append(b.as_str());
            m.append(" bytes");
            Err(ModelError::InvalidData(m))
        } else {
            Ok(())
        }
    }

    /// The value of one JSON text, given what the JSON parser made of
    /// `input`: a text over the size limit is refused first, and a parse
    /// failure becomes an invalid-data error.
    pub fn from_external(&self, input: &str, parsed: Result<SerdeCoreValue, String>) -> (r:
        ModelResult<SerdeCoreValue>)
        ensures
            input.len() > self.settings().base.max_direct_conversion_size ==> (
            r matches Err(e) && e@ == ModelErrorView::InvalidData(
                too_large_message(
                    input.len() as nat,
                    self.settings().base.max_direct_conversion_size as nat,
                ),
            )),
            input.len() <= self.settings().base.max_direct_conversion_size ==> match parsed {
                Ok(v) => r matches Ok(x) && x@ == v@,
                Err(m) => r matches Err(e) && e@ == ModelErrorView::InvalidData(
                    "JSON parse error: "@ + m@,
                ),
            },
    {
        match self.check_input_size(input) {
            Err(e) => Err(e),
            Ok(()) => parse_result(parsed),
        }
    }

    /// The values of several JSON texts, given what the JSON parser made of
    /// each in turn: the first failure, as an invalid-data error, or all of
    /// the values.  No size limit applies here.
    pub fn from_external_batch(&self, parsed: Vec<Result<SerdeCoreValue, String>>) -> (r: ModelResult<
        Vec<SerdeCoreValue>,
    >)
        ensures
            match first_failure(parsed@) {
                Some(m) => r matches Err(e) && e@ == ModelErrorView::InvalidData(
                    "JSON parse error: "@ + m,
                ),
                None => r matches Ok(v) && v.len() == parsed.len() && (forall|i: int|
                    0 <= i < v.len() ==> (#[trigger] parsed@[i]) is Ok) && (forall|i: int|
                    0 <= i < v.len() ==> (#[trigger] v@[i])@ == parsed@[i]->Ok_0@),
            },
    {
        let n = parsed.len();
        let ghost all = parsed@;
        let mut rest = parsed;
        let mut out: Vec<SerdeCoreValue> = Vec::new();
        let mut i: usize = 0;
        proof {
            lemma_first_failure_skip(all, 0);
        }
        while i < n
            invariant
                n == all.len(),
                i <= n,
                rest@ == all.skip(i as int),
                out.len() == i,
                first_failure(all) == first_failure(all.skip(i as int)),
                all == parsed@,
                forall|j: int| 0 <= j < i ==> (#[trigger] all[j]) is Ok,
                forall|j: int| 0 <= j < i ==> (#[trigger] out@[j])@ == all[j]->Ok_0@,
            decreases n - i,
        {
            let item = rest.remove(0);
            proof {
                assert(all[i as int] == item);
                assert(rest@ =~= all.skip(i + 1));
                assert(all.skip(i as int)[0] == item);
                assert(all.skip(i as int).drop_first() =~= all.skip(i + 1));
            }
            match item {
                Ok(v) => {
                    let ghost before = out@;
                    let ghost vv = v;
                    assert(all[i as int] == Ok::<SerdeCoreValue, String>(vv));
                    out.push(v);
                    proof {
                        assert(all[i as int] is Ok);
                        assert(out@[i as int] == vv);
                        assert forall|j: int| 0 <= j < i + 1 implies (
                        #[trigger] out@[j])@ == all[j]->Ok_0@ by {
                            if j < i {
                                assert(out@[j] == before[j]);
                            }
                        }
                    }
                },
                Err(m) => {
                    return Err(parse_error(m));
                },
            }
            i = i + 1;
        }
        proof {
            assert(all.skip(i as int).len() == 0);
        }
        Ok(out)
    }

    /// The text of one value, given what the JSON printer made of it: a
    /// printer failure becomes an invalid-data error.
    pub fn to_external(&self, printed: Result<String, String>) -> (r: ModelResult<String>)
        ensures
            match printed {
                Ok(t) => r matches Ok(x) && x@ == t@,
                Err(m) => r matches Err(e) && e@ == ModelErrorView::InvalidData(
                    "JSON serialize error: "@ + m@,
                ),
            },
    {
        match printed {
            Ok(t) => Ok(t),
            Err(m) => {
                let mut msg = String::from_str("JSON serialize error: ");
                msg.append(m.as_str());
                Err(ModelError::InvalidData(msg))
            },
        }
    }

    /// The texts of several values, given what the JSON printer made of
    /// each in turn: the first printer failure, as an invalid-data error, or
    /// all of the texts.
    pub fn to_external_batch(&self, printed: Vec<Result<String, String>>) -> (r: ModelResult<
        Vec<String>,
    >)
        ensures
            match first_print_failure(printed@) {
                Some(m) => r matches Err(e) && e@ == ModelErrorView::InvalidData(
                    "JSON serialize error: "@ + m,
                ),
                None => r matches Ok(v) && v.len() == printed.len() && (forall|i: int|
                    0 <= i < v.len() ==> (#[trigger] printed@[i]) is Ok) && (forall|i: int|
                    0 <= i < v.len() ==> (#[trigger] v@[i])@ == printed@[i]->Ok_0@),
            },
    {
        let n = printed.len();
        let ghost all = printed@;
        let mut rest = printed;
        let mut out: Vec<String> = Vec::new();
        let mut i: usize = 0;
        proof {
            assert(all.skip(0) =~= all);
        }
        while i < n
            invariant
                n == all.len(),
                i <= n,
                rest@ == all.skip(i as int),
                out.len() == i,
                first_print_failure(all) == first_print_failure(all.skip(i as int)),
                all == printed@,
                forall|j: int| 0 <= j < i ==> (#[trigger] all[j]) is Ok,
                forall|j: int| 0 <= j < i ==> (#[trigger] out@[j])@ == all[j]->Ok_0@,
            decreases n - i,
        {
            let item = rest.remove(0);
            proof {
                assert(all[i as int] == item);
                assert(rest@ =~= all.skip(i + 1));
                assert(all.skip(i as int)[0] == item);
                assert(all.skip(i as int).drop_first() =~= all.skip(i + 1));
            }
            let ghost it = item;
            match self.to_external(item) {
                Ok(t) => {
                    let ghost before = out@;
                    out.push(t);
                    proof {
                        assert forall|j: int| 0 <= j < i + 1 implies (#[trigger] out@[j])@
                            == all[j]->Ok_0@ by {
                            if j < i {
                                assert(out@[j] == before[j]);
                            }
                        }
                    }
                },
                Err(e) => {
                    proof {
                        assert(it is Err);
                        assert(first_print_failure(all.skip(i as int)) == Some(it->Err_0@));
                    }
                    return Err(e);
                },
            }
            i = i + 1;
        }
        proof {
            assert(all.skip(i as int).len() == 0);
        }
        Ok(out)
    }
}

/// The message of the first failure in a list of printer results.
pub open spec fn first_print_failure(s: Seq<Result<String, String>>) -> Option<Seq<char>>
    decreases s.len(),
{
    if s.len() == 0 {
        None
    } else {
        match s[0] {
            Err(m) => Some(m@),
            Ok(_) => first_print_failure(s.drop_first()),
        }
    }
}

/// The message of the first failure in a list of parse results.
pub open spec fn first_failure(s: Seq<Result<SerdeCoreValue, String>>) -> Option<Seq<char>>
    decreases s.len(),
{
    if s.len() == 0 {
        None
    } else {
        match s[0] {
            Err(m) => Some(m@),
            Ok(_) => first_failure(s.drop_first()),
        }
    }
}

proof fn lemma_first_failure_skip(s: Seq<Result<SerdeCoreValue, String>>, i: int)
    requires
        i == 0,
    ensures
        first_failure(s) == first_failure(s.skip(i)),
{
    assert(s.skip(0) =~= s);
}

fn parse_error(m: String) -> (e: ModelError)
    ensures
        e@ == ModelErrorView::InvalidData("JSON parse error: "@ + m@),
{
    let mut msg = String::from_str("JSON parse error: ");
    msg.append(m.as_str());
    ModelError::InvalidData(msg)
}

/// A parse result as the converter reports it.
fn parse_result(parsed: Result<SerdeCoreValue, String>) -> (r: ModelResult<SerdeCoreValue>)
    ensures
        match parsed {
            Ok(v) => r matches Ok(x) && x@ == v@,
            Err(m) => r matches Err(e) && e@ == ModelErrorView::InvalidData(
                "JSON parse error: "@ + m@,
            ),
        },
{
    match parsed {
        Ok(v) => Ok(v),
        Err(m) => Err(parse_error(m)),
    }
}

} // verus!
