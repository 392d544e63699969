//! Circuit template rules: arguments that a template declares, values given
//! for them, and the rules that fill a circuit builder from those values.
//!
//! A value written `$(NAME)` refers to the argument `NAME`; argument names are
//! matched in lower case.

use vstd::prelude::*;
use vstd::slice::slice_to_vec;
use vstd::utf8::encode_utf8;
use crate::routing::strings_view;

verus! {

/// The lower-case form of a string, as `str::to_lowercase` gives it.
pub uninterp spec fn lower_of(s: Seq<char>) -> Seq<char>;

/// Relies on `str::to_lowercase`: Unicode lower-casing, a function of the
/// characters alone.
#[verifier::external_body]
fn lowercase(s: &str) -> (r: String)
    ensures
        r@ == lower_of(s@),
{
    s.to_lowercase()
}

/// Whether `k` starts with the argument marker `$(`.
pub open spec fn is_arg_spec(k: Seq<char>) -> bool {
    k.len() >= 2 && k[0] == '$' && k[1] == '('
}

/// `k` without its leading `$(` markers, however many.
pub open spec fn trim_markers(k: Seq<char>) -> Seq<char>
    decreases k.len(),
{
    if is_arg_spec(k) {
        trim_markers(k.subrange(2, k.len() as int))
    } else {
        k
    }
}

/// The argument name that a key refers to: `$(NAME)` gives `NAME`, any other
/// key itself, in lower case.
pub open spec fn stripped_key(k: Seq<char>) -> Seq<char> {
    if is_arg_spec(k) && k.last() == ')' {
        lower_of(trim_markers(k.drop_last()))
    } else {
        lower_of(k)
    }
}

/// Whether `key` refers to an argument, that is, starts with `$(`.
pub fn is_arg_value(key: &str) -> (r: bool)
    ensures
        r == is_arg_spec(key@),
{
    let n = key.unicode_len();
    n >= 2 && key.get_char(0) == '$' && key.get_char(1) == '('
}

/// The argument name that `key` refers to.
pub fn strip_arg_marker(key: &str) -> (r: String)
    ensures
        r@ == stripped_key(key@),
{
    let n = key.unicode_len();
    if is_arg_value(key) && key.get_char(n - 1) == ')' {
        let m = n - 1;
        let inner = key.substring_char(0, m);
        assert(inner@ =~= key@.drop_last());
        let mut start: usize = 0;
        let mut done = false;
        assert(inner@.subrange(0, m as int) =~= inner@);
        while !done
            invariant
                start <= m,
                m == inner@.len(),
                trim_markers(inner@.subrange(start as int, m as int)) == trim_markers(inner@),
                done ==> !is_arg_spec(inner@.subrange(start as int, m as int)),
            decreases 2 * (m - start) + if done {
                0int
            } else {
                1int
            },
        {
            if m - start >= 2 && inner.get_char(start) == '$' && inner.get_char(start + 1) == '(' {
                assert(inner@.subrange(start as int, m as int).subrange(2, (m - start) as int)
                    =~= inner@.subrange(start + 2, m as int));
                start = start + 2;
            } else {
                done = true;
            }
        }
        lowercase(inner.substring_char(start, m))
    } else {
        lowercase(key)
    }
}

/// Raised when a template cannot be applied.
#[derive(Debug)]
pub struct CircuitTemplateError {
    context: String,
}

impl View for CircuitTemplateError {
    type V = Seq<char>;

    closed spec fn view(&self) -> Seq<char> {
        self.context@
    }
}

impl CircuitTemplateError {
    /// An error described by `context`.
    pub fn new(context: &str) -> (r: Self)
        ensures
            r@ == context@,
    {
        CircuitTemplateError { context: context.to_owned() }
    }

    /// What went wrong.
    pub fn context(&self) -> (r: &str)
        ensures
            r@ == self@,
    {
        self.context.as_str()
    }

    /// The error as text.
    pub fn to_string(&self) -> (r: String)
        ensures
            r@ == self@,
    {
        self.context.clone()
    }
}

/// What a `RuleArgument` holds, as mathematical values.
pub ghost struct ArgumentModel {
    pub name: Seq<char>,
    pub required: bool,
    pub default_value: Option<Seq<char>>,
    pub description: Option<Seq<char>>,
    pub user_value: Option<Seq<char>>,
}

pub open spec fn opt_view(o: Option<String>) -> Option<Seq<char>> {
    match o {
        Some(s) => Some(s@),
        None => None,
    }
}

/// An argument declared by a template, with the value the user gave, if any.
#[derive(Debug)]
pub struct RuleArgument {
    name: String,
    /// Whether the user must give a value.
    required: bool,
    default_value: Option<String>,
    description: Option<String>,
    /// The value the user gave.
    user_value: Option<String>,
}

impl View for RuleArgument {
    type V = ArgumentModel;

    closed spec fn view(&self) -> ArgumentModel {
        ArgumentModel {
            name: self.name@,
            required: self.required,
            default_value: opt_view(self.default_value),
            description: opt_view(self.description),
            user_value: opt_view(self.user_value),
        }
    }
}

pub open spec fn arguments_view(args: Seq<RuleArgument>) -> Seq<ArgumentModel> {
    args.map_values(|a: RuleArgument| a@)
}

fn clone_option(o: &Option<String>) -> (r: Option<String>)
    ensures
        opt_view(r) == opt_view(*o),
{
    match o {
        Some(s) => Some(s.clone()),
        None => None,
    }
}

impl Clone for RuleArgument {
    fn clone(&self) -> (r: Self)
        ensures
            r@ == self@,
    {
        RuleArgument {
            name: self.name.clone(),
            required: self.required,
            default_value: clone_option(&self.default_value),
            description: clone_option(&self.description),
            user_value: clone_option(&self.user_value),
        }
    }
}

impl RuleArgument {
    /// Declares an argument; its name is kept in lower case, and it has no
    /// user value yet.
    pub fn new(
        name: &str,
        required: bool,
        default_value: Option<String>,
        description: Option<String>,
    ) -> (r: Self)
        ensures
            r@ == (ArgumentModel {
                name: lower_of(name@),
                required,
                default_value: opt_view(default_value),
                description: opt_view(description),
                user_value: None,
            }),
    {
        RuleArgument {
            name: lowercase(name),
            required,
            default_value,
            description,
            user_value: None,
        }
    }

    pub fn name(&self) -> (r: &str)
        ensures
            r@ == self@.name,
    {
        self.name.as_str()
    }

    pub fn required(&self) -> (r: bool)
        ensures
            r == self@.required,
    {
        self.required
    }

    pub fn default_value(&self) -> (r: Option<&String>)
        ensures
            match r {
                Some(v) => self@.default_value == Some(v@),
                None => self@.default_value is None,
            },
    {
        self.default_value.as_ref()
    }

    pub fn description(&self) -> (r: Option<&String>)
        ensures
            match r {
                Some(v) => self@.description == Some(v@),
                None => self@.description is None,
            },
    {
        self.description.as_ref()
    }

    pub fn user_value(&self) -> (r: Option<&String>)
        ensures
            match r {
                Some(v) => self@.user_value == Some(v@),
                None => self@.user_value is None,
            },
    {
        self.user_value.as_ref()
    }

    /// Records the value the user gave.
    pub fn set_user_value(&mut self, value: &str)
        ensures
            final(self)@ == (ArgumentModel { user_value: Some(value@), ..old(self)@ }),
    {
        self.user_value = Some(value.to_owned())
    }
}

/// `args[i]` is the first argument named `name`.
pub open spec fn named_at(args: Seq<ArgumentModel>, name: Seq<char>, i: int) -> bool {
    &&& 0 <= i < args.len()
    &&& args[i].name == name
    &&& forall|j: int| 0 <= j < i ==> args[j].name != name
}

/// The position of the first argument named `name`, if any.
pub open spec fn first_named(args: Seq<ArgumentModel>, name: Seq<char>) -> Option<int> {
    if exists|i: int| named_at(args, name, i) {
        Some(choose|i: int| named_at(args, name, i))
    } else {
        None
    }
}

pub open spec fn missing_argument_message(name: Seq<char>) -> Seq<char> {
    "Invalid template. Argument \""@ + name + "\" was expected but not provided"@
}

pub open spec fn required_argument_message(name: Seq<char>) -> Seq<char> {
    "Argument \""@ + name + "\" is required but was not provided"@
}

pub open spec fn no_default_message(name: Seq<char>) -> Seq<char> {
    "Argument \""@ + name + "\" was not provided and no default value is set"@
}

pub open spec fn cyclic_default_message(name: Seq<char>) -> Seq<char> {
    "Argument \""@ + name + "\" has a default value that refers back to itself"@
}

/// The value of the argument that `key` refers to: the user's value, else
/// for an optional argument its default, which may itself refer to another
/// argument. `steps` bounds how many defaults are followed; past it the
/// chain must have come back to an argument already visited.
pub open spec fn argument_value(key: Seq<char>, args: Seq<ArgumentModel>, steps: nat) -> Result<
    Seq<char>,
    Seq<char>,
>
    decreases steps,
{
    let name = stripped_key(key);
    match first_named(args, name) {
        None => Err(missing_argument_message(name)),
        Some(i) => match args[i].user_value {
            Some(v) => Ok(v),
            None => if args[i].required {
                Err(required_argument_message(name))
            } else {
                match args[i].default_value {
                    None => Err(no_default_message(name)),
                    Some(d) => if !is_arg_spec(d) {
                        Ok(d)
                    } else if steps == 0 {
                        Err(cyclic_default_message(name))
                    } else {
                        argument_value(d, args, (steps - 1) as nat)
                    },
                }
            },
        },
    }
}

/// The value of `key` among `args`, following at most as many defaults as
/// there are arguments.
pub open spec fn resolved(key: Seq<char>, args: Seq<ArgumentModel>) -> Result<Seq<char>, Seq<char>> {
    argument_value(key, args, args.len())
}

/// The position of the first argument named `name`.
pub fn find_argument(name: &String, template_arguments: &[RuleArgument]) -> (r: Option<usize>)
    ensures
        r == match first_named(arguments_view(template_arguments@), name@) {
            Some(i) => Some(i as usize),
            None => None::<usize>,
        },
        r matches Some(i) ==> i < template_arguments@.len(),
{
    let ghost av = arguments_view(template_arguments@);
    let mut i: usize = 0;
    while i < template_arguments.len()
        invariant
            i <= template_arguments@.len(),
            av == arguments_view(template_arguments@),
            forall|j: int| 0 <= j < i ==> av[j].name != name@,
        decreases template_arguments@.len() - i,
    {
        if template_arguments[i].name == *name {
            proof {
                assert(named_at(av, name@, i as int));
                let c = choose|c: int| named_at(av, name@, c);
                if c < i {
                } else if c > i {
                    assert(av[i as int].name == name@);
                }
            }
            return Some(i);
        }
        i = i + 1;
    }
    proof {
        if exists|c: int| named_at(av, name@, c) {
            let c = choose|c: int| named_at(av, name@, c);
        }
    }
    None
}

/// Joins `"<a><name><b>"` into one string.
fn message(a: &str, name: &String, b: &str) -> (r: String)
    ensures
        r@ == a@ + name@ + b@,
{
    a.to_owned().concat(name.as_str()).concat(b)
}

/// The value of the argument that `key` refers to, as `resolved` gives it.
pub fn get_argument_value(key: &str, template_arguments: &[RuleArgument]) -> (r: Result<
    String,
    CircuitTemplateError,
>)
    ensures
        match r {
            Ok(v) => resolved(key@, arguments_view(template_arguments@)) == Ok::<
                Seq<char>,
                Seq<char>,
            >(v@),
            Err(e) => resolved(key@, arguments_view(template_arguments@)) == Err::<
                Seq<char>,
                Seq<char>,
            >(e@),
        },
{
    let ghost av = arguments_view(template_arguments@);
    let ghost target = resolved(key@, av);
    let mut current = key.to_owned();
    let mut steps: usize = template_arguments.len();
    loop
        invariant
            steps <= template_arguments@.len(),
            av == arguments_view(template_arguments@),
            target == resolved(key@, av),
            argument_value(current@, av, steps as nat) == target,
        decreases steps,
    {
        let name = strip_arg_marker(current.as_str());
        let i = match find_argument(&name, template_arguments) {
            Some(i) => i,
            None => {
                let context = message("Invalid template. Argument \"", &name, "\" was expected but not provided");
                return Err(CircuitTemplateError { context });
            },
        };
        let arg = &template_arguments[i];
        assert(av[i as int] == arg@);
        match &arg.user_value {
            Some(v) => {
                return Ok(v.clone());
            },
            None => {},
        }
        if arg.required {
            let context = message("Argument \"", &name, "\" is required but was not provided");
            return Err(CircuitTemplateError { context });
        }
        match &arg.default_value {
            None => {
                let context = message(
                    "Argument \"",
                    &name,
                    "\" was not provided and no default value is set",
                );
                return Err(CircuitTemplateError { context });
            },
            Some(d) => {
                if !is_arg_value(d.as_str()) {
                    return Ok(d.clone());
                }
                if steps == 0 {
                    let context = message(
                        "Argument \"",
                        &name,
                        "\" has a default value that refers back to itself",
                    );
                    return Err(CircuitTemplateError { context });
                }
                current = d.clone();
                steps = steps - 1;
            },
        }
    }
}

/// What a `Value` holds, as mathematical values.
pub ghost enum ValueModel {
    Single(Seq<char>),
    List(Seq<Seq<char>>),
}

/// A metadata value: one string or a list of strings, each of which may
/// refer to an argument.
#[derive(Debug)]
pub enum Value {
    Single(String),
    List(Vec<String>),
}

impl View for Value {
    type V = ValueModel;

    open spec fn view(&self) -> ValueModel {
        match self {
            Value::Single(v) => ValueModel::Single(v@),
            Value::List(vs) => ValueModel::List(strings_view(vs@)),
        }
    }
}

/// One key of the JSON metadata and its value.
#[derive(Debug)]
pub struct JsonMetadata {
    pub key: String,
    pub value: Value,
}

impl View for JsonMetadata {
    type V = (Seq<char>, ValueModel);

    open spec fn view(&self) -> (Seq<char>, ValueModel) {
        (self.key@, self.value@)
    }
}

pub open spec fn metadata_view(entries: Seq<JsonMetadata>) -> Seq<(Seq<char>, ValueModel)> {
    entries.map_values(|e: JsonMetadata| e@)
}

/// The forms of metadata a template can set.
#[derive(Debug)]
pub enum Metadata {
    Json { metadata: Vec<JsonMetadata> },
}

/// The rule that sets a circuit's application metadata.
#[derive(Debug)]
pub struct SetMetadata {
    metadata: Metadata,
}

/// A string value with an argument reference replaced by the argument's value.
pub open spec fn value_text(v: Seq<char>, args: Seq<ArgumentModel>) -> Result<Seq<char>, Seq<char>> {
    if is_arg_spec(v) {
        resolved(v, args)
    } else {
        Ok(v)
    }
}

pub open spec fn quoted(s: Seq<char>) -> Seq<char> {
    "\""@ + s + "\""@
}

/// The values, each resolved and quoted, separated by commas; the first
/// value that fails to resolve gives the error.
pub open spec fn list_text(values: Seq<Seq<char>>, args: Seq<ArgumentModel>) -> Result<
    Seq<char>,
    Seq<char>,
>
    decreases values.len(),
{
    if values.len() == 0 {
        Ok(Seq::empty())
    } else {
        match list_text(values.drop_last(), args) {
            Err(e) => Err(e),
            Ok(prefix) => match value_text(values.last(), args) {
                Err(e) => Err(e),
                Ok(t) => Ok(
                    if values.len() == 1 {
                        quoted(t)
                    } else {
                        prefix + ","@ + quoted(t)
                    },
                ),
            },
        }
    }
}

/// One `"key":"value"` or `"key":["value",...]` member.
pub open spec fn entry_text(key: Seq<char>, value: ValueModel, args: Seq<ArgumentModel>) -> Result<
    Seq<char>,
    Seq<char>,
> {
    match value {
        ValueModel::Single(v) => match value_text(v, args) {
            Ok(t) => Ok("\""@ + key + "\":\""@ + t + "\""@),
            Err(e) => Err(e),
        },
        ValueModel::List(vs) => match list_text(vs, args) {
            Ok(t) => Ok("\""@ + key + "\":["@ + t + "]"@),
            Err(e) => Err(e),
        },
    }
}

/// The members, separated by commas; the first that fails gives the error.
pub open spec fn entries_text(entries: Seq<(Seq<char>, ValueModel)>, args: Seq<ArgumentModel>) -> Result<
    Seq<char>,
    Seq<char>,
>
    decreases entries.len(),
{
    if entries.len() == 0 {
        Ok(Seq::empty())
    } else {
        match entries_text(entries.drop_last(), args) {
            Err(e) => Err(e),
            Ok(prefix) => match entry_text(entries.last().0, entries.last().1, args) {
                Err(e) => Err(e),
                Ok(t) => Ok(
                    if entries.len() == 1 {
                        t
                    } else {
                        prefix + ","@ + t
                    },
                ),
            },
        }
    }
}

/// The JSON object that the metadata rule produces.
pub open spec fn metadata_json(entries: Seq<(Seq<char>, ValueModel)>, args: Seq<ArgumentModel>) -> Result<
    Seq<char>,
    Seq<char>,
> {
    match entries_text(entries, args) {
        Ok(t) => Ok("{"@ + t + "}"@),
        Err(e) => Err(e),
    }
}

proof fn lemma_list_text_prefix(values: Seq<Seq<char>>, args: Seq<ArgumentModel>, n: int)
    requires
        0 <= n <= values.len(),
        list_text(values.subrange(0, n), args) is Err,
    ensures
        list_text(values, args) == list_text(values.subrange(0, n), args),
    decreases values.len() - n,
{
    if n < values.len() {
        assert(values.subrange(0, n + 1).drop_last() =~= values.subrange(0, n));
        lemma_list_text_prefix(values, args, n + 1);
    } else {
        assert(values.subrange(0, n) =~= values);
    }
}

proof fn lemma_entries_text_prefix(
    entries: Seq<(Seq<char>, ValueModel)>,
    args: Seq<ArgumentModel>,
    n: int,
)
    requires
        0 <= n <= entries.len(),
        entries_text(entries.subrange(0, n), args) is Err,
    ensures
        entries_text(entries, args) == entries_text(entries.subrange(0, n), args),
    decreases entries.len() - n,
{
    if n < entries.len() {
        assert(entries.subrange(0, n + 1).drop_last() =~= entries.subrange(0, n));
        lemma_entries_text_prefix(entries, args, n + 1);
    } else {
        assert(entries.subrange(0, n) =~= entries);
    }
}

/// A value with its argument reference, if any, resolved.
fn value_json(value: &String, template_arguments: &[RuleArgument]) -> (r: Result<
    String,
    CircuitTemplateError,
>)
    ensures
        match r {
            Ok(t) => value_text(value@, arguments_view(template_arguments@)) == Ok::<
                Seq<char>,
                Seq<char>,
            >(t@),
            Err(e) => value_text(value@, arguments_view(template_arguments@)) == Err::<
                Seq<char>,
                Seq<char>,
            >(e@),
        },
{
    if is_arg_value(value.as_str()) {
        get_argument_value(value.as_str(), template_arguments)
    } else {
        Ok(value.clone())
    }
}

fn list_json(values: &Vec<String>, template_arguments: &[RuleArgument]) -> (r: Result<
    String,
    CircuitTemplateError,
>)
    ensures
        match r {
            Ok(t) => list_text(strings_view(values@), arguments_view(template_arguments@)) == Ok::<
                Seq<char>,
                Seq<char>,
            >(t@),
            Err(e) => list_text(strings_view(values@), arguments_view(template_arguments@))
                == Err::<Seq<char>, Seq<char>>(e@),
        },
{
    let ghost av = arguments_view(template_arguments@);
    let ghost sv = strings_view(values@);
    let mut out = String::new();
    let mut i: usize = 0;
    while i < values.len()
        invariant
            i <= values@.len(),
            av == arguments_view(template_arguments@),
            sv == strings_view(values@),
            list_text(sv.subrange(0, i as int), av) == Ok::<Seq<char>, Seq<char>>(out@),
        decreases values@.len() - i,
    {
        let ghost sub = sv.subrange(0, i + 1);
        assert(sub.drop_last() =~= sv.subrange(0, i as int));
        assert(sub.last() == values@[i as int]@);
        let t = match value_json(&values[i], template_arguments) {
            Ok(t) => t,
            Err(e) => {
                proof {
                    lemma_list_text_prefix(sv, av, i + 1);
                }
                return Err(e);
            },
        };
        let q = "\"".to_owned().concat(t.as_str()).concat("\"");
        if i == 0 {
            out = q;
        } else {
            out = out.concat(",").concat(q.as_str());
        }
        i = i + 1;
    }
    assert(sv.subrange(0, sv.len() as int) =~= sv);
    Ok(out)
}

fn entry_json(entry: &JsonMetadata, template_arguments: &[RuleArgument]) -> (r: Result<
    String,
    CircuitTemplateError,
>)
    ensures
        match r {
            Ok(t) => entry_text(entry@.0, entry@.1, arguments_view(template_arguments@)) == Ok::<
                Seq<char>,
                Seq<char>,
            >(t@),
            Err(e) => entry_text(entry@.0, entry@.1, arguments_view(template_arguments@))
                == Err::<Seq<char>, Seq<char>>(e@),
        },
{
    match &entry.value {
        Value::Single(v) => {
            let t = value_json(v, template_arguments)?;
            let out = "\"".to_owned().concat(entry.key.as_str()).concat("\":\"").concat(
                t.as_str(),
            ).concat("\"");
            Ok(out)
        },
        Value::List(vs) => {
            let t = list_json(vs, template_arguments)?;
            let out = "\"".to_owned().concat(entry.key.as_str()).concat("\":[").concat(
                t.as_str(),
            ).concat("]");
            Ok(out)
        },
    }
}

impl SetMetadata {
    /// The rule that sets `metadata`.
    pub fn new(metadata: Metadata) -> (r: Self)
        ensures
            r.entries() == match metadata {
                Metadata::Json { metadata } => metadata_view(metadata@),
            },
    {
        SetMetadata { metadata }
    }

    /// The metadata the rule sets, as mathematical values.
    pub closed spec fn entries(&self) -> Seq<(Seq<char>, ValueModel)> {
        match self.metadata {
            Metadata::Json { metadata } => metadata_view(metadata@),
        }
    }

    /// The metadata as UTF-8 JSON, with argument references resolved; the
    /// first reference that fails to resolve gives the error.
    pub fn apply_rule(&self, template_arguments: &[RuleArgument]) -> (r: Result<
        Vec<u8>,
        CircuitTemplateError,
    >)
        ensures
            match r {
                Ok(bytes) => metadata_json(self.entries(), arguments_view(template_arguments@)) matches Ok(
                    text,
                ) && bytes@ == encode_utf8(text),
                Err(e) => metadata_json(self.entries(), arguments_view(template_arguments@))
                    == Err::<Seq<char>, Seq<char>>(e@),
            },
    {
        match &self.metadata {
            Metadata::Json { metadata } => {
                let ghost av = arguments_view(template_arguments@);
                let ghost ev = metadata_view(metadata@);
                let mut out = String::new();
                let mut i: usize = 0;
                while i < metadata.len()
                    invariant
                        i <= metadata@.len(),
                        av == arguments_view(template_arguments@),
                        ev == metadata_view(metadata@),
                        self.entries() == ev,
                        entries_text(ev.subrange(0, i as int), av) == Ok::<Seq<char>, Seq<char>>(
                            out@,
                        ),
                    decreases metadata@.len() - i,
                {
                    let ghost sub = ev.subrange(0, i + 1);
                    assert(sub.drop_last() =~= ev.subrange(0, i as int));
                    assert(sub.last() == metadata@[i as int]@);
                    let t = match entry_json(&metadata[i], template_arguments) {
                        Ok(t) => t,
                        Err(e) => {
                            proof {
                                lemma_entries_text_prefix(ev, av, i + 1);
                                assert(self.entries() == ev);
                                assert(entries_text(ev, av) == Err::<Seq<char>, Seq<char>>(e@));
                            }
                            return Err(e);
                        },
                    };
                    if i == 0 {
                        out = t;
                    } else {
                        out = out.concat(",").concat(t.as_str());
                    }
                    i = i + 1;
                }
                assert(ev.subrange(0, ev.len() as int) =~= ev);
                let json = "{".to_owned().concat(out.as_str()).concat("}");
                Ok(json.as_str().as_bytes_vec())
            },
        }
    }
}

/// What a `CreateCircuitBuilder` holds, as mathematical values.
pub ghost struct BuilderModel {
    pub circuit_management_type: Option<Seq<char>>,
    pub application_metadata: Option<Seq<u8>>,
}

/// The parts of a circuit-create request that the template rules fill in.
#[derive(Debug)]
pub struct CreateCircuitBuilder {
    circuit_management_type: Option<String>,
    application_metadata: Option<Vec<u8>>,
}

impl View for CreateCircuitBuilder {
    type V = BuilderModel;

    closed spec fn view(&self) -> BuilderModel {
        BuilderModel {
            circuit_management_type: opt_view(self.circuit_management_type),
            application_metadata: match self.application_metadata {
                Some(m) => Some(m@),
                None => None,
            },
        }
    }
}

impl CreateCircuitBuilder {
    /// A builder with nothing set.
    pub fn new() -> (r: Self)
        ensures
            r@ == (BuilderModel { circuit_management_type: None, application_metadata: None }),
    {
        CreateCircuitBuilder { circuit_management_type: None, application_metadata: None }
    }

    pub fn with_circuit_management_type(self, circuit_management_type: &str) -> (r: Self)
        ensures
            r@ == (BuilderModel {
                circuit_management_type: Some(circuit_management_type@),
                ..self@
            }),
    {
        CreateCircuitBuilder {
            circuit_management_type: Some(circuit_management_type.to_owned()),
            application_metadata: self.application_metadata,
        }
    }

    pub fn with_application_metadata(self, application_metadata: &[u8]) -> (r: Self)
        ensures
            r@ == (BuilderModel { application_metadata: Some(application_metadata@), ..self@ }),
    {
        CreateCircuitBuilder {
            circuit_management_type: self.circuit_management_type,
            application_metadata: Some(slice_to_vec(application_metadata)),
        }
    }

    pub fn circuit_management_type(&self) -> (r: Option<&String>)
        ensures
            match r {
                Some(v) => self@.circuit_management_type == Some(v@),
                None => self@.circuit_management_type is None,
            },
    {
        self.circuit_management_type.as_ref()
    }

    pub fn application_metadata(&self) -> (r: Option<&Vec<u8>>)
        ensures
            match r {
                Some(v) => self@.application_metadata == Some(v@),
                None => self@.application_metadata is None,
            },
    {
        self.application_metadata.as_ref()
    }
}

/// The rules of a circuit template.
#[derive(Debug)]
pub struct Rules {
    /// The circuit management type to set, if any.
    set_management_type: Option<String>,
    set_metadata: Option<SetMetadata>,
}

impl Rules {
    pub fn new(set_management_type: Option<String>, set_metadata: Option<SetMetadata>) -> (r: Self)
        ensures
            opt_view(r.management_type()) == opt_view(set_management_type),
            r.metadata_rule() == set_metadata,
    {
        Rules { set_management_type, set_metadata }
    }

    pub closed spec fn management_type(&self) -> Option<String> {
        self.set_management_type
    }

    pub closed spec fn metadata_rule(&self) -> Option<SetMetadata> {
        self.set_metadata
    }

    /// Applies the rules to `circuit_builder`: sets the management type, then
    /// the application metadata; an argument that fails to resolve fails the
    /// whole.
    pub fn apply_rules(
        &self,
        circuit_builder: CreateCircuitBuilder,
        template_arguments: &[RuleArgument],
    ) -> (r: Result<CreateCircuitBuilder, CircuitTemplateError>)
        ensures
            ({
                let managed = match self.management_type() {
                    Some(t) => BuilderModel { circuit_management_type: Some(t@), ..circuit_builder@ },
                    None => circuit_builder@,
                };
                match self.metadata_rule() {
                    None => r matches Ok(b) && b@ == managed,
                    Some(rule) => match metadata_json(
                        rule.entries(),
                        arguments_view(template_arguments@),
                    ) {
                        Ok(text) => r matches Ok(b) && b@ == (BuilderModel {
                            application_metadata: Some(encode_utf8(text)),
                            ..managed
                        }),
                        Err(e) => r matches Err(err) && err@ == e,
                    },
                }
            }),
    {
        let mut circuit_builder = circuit_builder;
        if let Some(management_type) = &self.set_management_type {
            circuit_builder = circuit_builder.with_circuit_management_type(management_type.as_str());
        }
        if let Some(set_metadata) = &self.set_metadata {
            let metadata = set_metadata.apply_rule(template_arguments)?;
            circuit_builder = circuit_builder.with_application_metadata(metadata.as_slice());
        }
        Ok(circuit_builder)
    }
}

} // verus!
