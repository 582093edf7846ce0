//! Binding positional string arguments to a tool's typed parameters: the
//! count check, the per-parameter parse, and what an omitted optional
//! parameter receives.
use vstd::prelude::*;
use crate::error::{missing_message, outcome, Failure, ToolError};
use crate::number::{
    float_literal, is_float_literal, parse_i128, parse_i64, parse_integer, parse_wide,
};
use crate::text::{decimal, push_decimal, views};

verus! {

/// The declared type of a parameter.
#[derive(Debug, Clone, Copy, PartialEq, Eq, Structural)]
pub enum ParamKind {
    /// A signed integer of 64 bits.
    Integer,
    /// An integer between the two bounds, both included: an integer type
    /// of another width or sign.
    IntegerIn(i128, i128),
    Number,
    Boolean,
    String,
}

/// The bounds of the Rust integer type named `name`, where it is one of a
/// width or sign other than `i64`. Of `u128`, the part that `i128` holds.
pub open spec fn bounds_of_type(name: Seq<char>) -> Option<(i128, i128)> {
    if name == "u8"@ {
        Some((0i128, u8::MAX as i128))
    } else if name == "u16"@ {
        Some((0i128, u16::MAX as i128))
    } else if name == "u32"@ {
        Some((0i128, u32::MAX as i128))
    } else if name == "u64"@ {
        Some((0i128, u64::MAX as i128))
    } else if name == "usize"@ {
        Some((0i128, usize::MAX as i128))
    } else if name == "u128"@ {
        Some((0i128, i128::MAX))
    } else if name == "i8"@ {
        Some((i8::MIN as i128, i8::MAX as i128))
    } else if name == "i16"@ {
        Some((i16::MIN as i128, i16::MAX as i128))
    } else if name == "i32"@ {
        Some((i32::MIN as i128, i32::MAX as i128))
    } else if name == "isize"@ {
        Some((isize::MIN as i128, isize::MAX as i128))
    } else if name == "i128"@ {
        Some((i128::MIN, i128::MAX))
    } else {
        None
    }
}

/// The declared type that stands for the Rust type named `name`: an
/// integer within the type's bounds for the integer types, the 64-bit
/// integer for any other name that starts with `u` or `i`, `number` for
/// `f32` and `f64`, `boolean` for `bool`, and `string` for any other.
pub open spec fn kind_of_type(name: Seq<char>) -> ParamKind {
    if let Some(bounds) = bounds_of_type(name) {
        ParamKind::IntegerIn(bounds.0, bounds.1)
    } else if name.len() > 0 && (name[0] == 'u' || name[0] == 'i') {
        ParamKind::Integer
    } else if name == "f32"@ || name == "f64"@ {
        ParamKind::Number
    } else if name == "bool"@ {
        ParamKind::Boolean
    } else {
        ParamKind::String
    }
}

/// The bounds of the Rust integer type named `name`.
pub fn type_bounds(name: &str) -> (r: Option<(i128, i128)>)
    ensures
        r == bounds_of_type(name@),
{
    if *name == *"u8" {
        Some((0i128, u8::MAX as i128))
    } else if *name == *"u16" {
        Some((0i128, u16::MAX as i128))
    } else if *name == *"u32" {
        Some((0i128, u32::MAX as i128))
    } else if *name == *"u64" {
        Some((0i128, u64::MAX as i128))
    } else if *name == *"usize" {
        Some((0i128, usize::MAX as i128))
    } else if *name == *"u128" {
        Some((0i128, i128::MAX))
    } else if *name == *"i8" {
        Some((i8::MIN as i128, i8::MAX as i128))
    } else if *name == *"i16" {
        Some((i16::MIN as i128, i16::MAX as i128))
    } else if *name == *"i32" {
        Some((i32::MIN as i128, i32::MAX as i128))
    } else if *name == *"isize" {
        Some((isize::MIN as i128, isize::MAX as i128))
    } else if *name == *"i128" {
        Some((i128::MIN, i128::MAX))
    } else {
        None
    }
}

impl ParamKind {
    /// The declared type that stands for the Rust type named `name`.
    pub fn of_type(name: &str) -> (r: ParamKind)
        ensures
            r == kind_of_type(name@),
    {
        if let Some((low, high)) = type_bounds(name) {
            return ParamKind::IntegerIn(low, high);
        }
        let starts_like_integer = {
            let mut first = name.chars();
            match first.next() {
                Some(c) => c == 'u' || c == 'i',
                None => false,
            }
        };
        if starts_like_integer {
            ParamKind::Integer
        } else if *name == *"f32" || *name == *"f64" {
            ParamKind::Number
        } else if *name == *"bool" {
            ParamKind::Boolean
        } else {
            ParamKind::String
        }
    }
}

/// A typed argument, as a tool's implementation receives it.
#[derive(Debug, PartialEq, Eq)]
pub enum Arg {
    Integer(i128),
    /// A floating-point literal, kept as the text that was supplied.
    Number(String),
    Boolean(bool),
    String(String),
    /// An optional parameter that was omitted and declares no default.
    Absent,
}

/// The mathematical value of an [`Arg`].
pub enum ArgView {
    Integer(i128),
    Number(Seq<char>),
    Boolean(bool),
    String(Seq<char>),
    Absent,
}

impl View for Arg {
    type V = ArgView;

    open spec fn view(&self) -> ArgView {
        match self {
            Arg::Integer(n) => ArgView::Integer(*n),
            Arg::Number(literal) => ArgView::Number(literal@),
            Arg::Boolean(b) => ArgView::Boolean(*b),
            Arg::String(s) => ArgView::String(s@),
            Arg::Absent => ArgView::Absent,
        }
    }
}

impl Clone for Arg {
    fn clone(&self) -> (r: Arg)
        ensures
            r@ == self@,
    {
        match self {
            Arg::Integer(n) => Arg::Integer(*n),
            Arg::Number(literal) => Arg::Number(literal.clone()),
            Arg::Boolean(b) => Arg::Boolean(*b),
            Arg::String(s) => Arg::String(s.clone()),
            Arg::Absent => Arg::Absent,
        }
    }
}

/// One declared parameter of a tool.
#[derive(Debug)]
pub struct Param {
    pub name: String,
    pub kind: ParamKind,
    /// Whether a call may omit the parameter.
    pub optional: bool,
    /// What an optional parameter receives when it is omitted.
    pub default: Option<Arg>,
}

/// The mathematical value of a [`Param`].
pub struct ParamView {
    pub name: Seq<char>,
    pub kind: ParamKind,
    pub optional: bool,
    pub default: Option<ArgView>,
}

impl View for Param {
    type V = ParamView;

    open spec fn view(&self) -> ParamView {
        ParamView {
            name: self.name@,
            kind: self.kind,
            optional: self.optional,
            default: match self.default {
                Some(value) => Some(value@),
                None => None,
            },
        }
    }
}

/// The views of the parameters of `params`, in order.
pub open spec fn params_view(params: Seq<Param>) -> Seq<ParamView> {
    Seq::new(params.len(), |i: int| params[i]@)
}

/// The views of the arguments of `args`, in order.
pub open spec fn args_view(args: Seq<Arg>) -> Seq<ArgView> {
    Seq::new(args.len(), |i: int| args[i]@)
}

/// Whether `raw` starts with a minus sign.
pub open spec fn minus_signed(raw: Seq<char>) -> bool {
    raw.len() > 0 && raw[0] == '-'
}

fn starts_with_minus(raw: &str) -> (r: bool)
    ensures
        r == minus_signed(raw@),
{
    let mut first = raw.chars();
    match first.next() {
        Some(c) => c == '-',
        None => false,
    }
}

/// What the text `raw` is as a value of type `kind`, if it is one. An
/// integer with bounds must lie within them, and where the lower bound is
/// not negative, a minus sign is not read, as for an unsigned type.
pub open spec fn parse_as(kind: ParamKind, raw: Seq<char>) -> Option<ArgView> {
    match kind {
        ParamKind::Integer => match parse_integer(raw) {
            Some(n) => Some(ArgView::Integer(n as i128)),
            None => None,
        },
        ParamKind::IntegerIn(low, high) => match parse_wide(raw) {
            Some(n) => if low <= n <= high && !(low >= 0 && minus_signed(raw)) {
                Some(ArgView::Integer(n))
            } else {
                None
            },
            None => None,
        },
        ParamKind::Number => if is_float_literal(raw) {
            Some(ArgView::Number(raw))
        } else {
            None
        },
        ParamKind::Boolean => if raw == "true"@ {
            Some(ArgView::Boolean(true))
        } else if raw == "false"@ {
            Some(ArgView::Boolean(false))
        } else {
            None
        },
        ParamKind::String => Some(ArgView::String(raw)),
    }
}

/// How many of the first `n` parameters a call must supply.
pub open spec fn required_among(params: Seq<ParamView>, n: nat) -> nat
    decreases n,
{
    if n == 0 || n > params.len() {
        0
    } else {
        required_among(params, (n - 1) as nat) + if params[n - 1].optional {
            0nat
        } else {
            1nat
        }
    }
}

/// How many parameters a call must supply.
pub open spec fn required_count(params: Seq<ParamView>) -> nat {
    required_among(params, params.len())
}

/// The message for a count of arguments outside the two bounds.
pub open spec fn count_message(min: nat, max: nat, got: nat) -> Seq<char> {
    "Expected between "@ + decimal(min) + " and "@ + decimal(max) + " arguments, got "@ + decimal(
        got,
    )
}

/// The message for the text `raw` that does not read as the type of the
/// parameter `name`.
pub open spec fn parse_message(raw: Seq<char>, name: Seq<char>) -> Seq<char> {
    "Failed to parse argument '"@ + raw + "' for parameter '"@ + name + "'"@
}

/// What an omitted optional parameter receives: its declared default, or
/// the absent value.
pub open spec fn omitted_value(param: ParamView) -> ArgView {
    match param.default {
        Some(value) => value,
        None => ArgView::Absent,
    }
}

/// The typed value of one parameter: the parse of the supplied text, or,
/// with nothing supplied, the default or absent value of an optional
/// parameter. A required parameter with nothing supplied is the caller's
/// fault; this happens where an optional parameter stands before it.
pub open spec fn bind_one(param: ParamView, supplied: Option<Seq<char>>) -> Result<
    ArgView,
    Failure,
> {
    match supplied {
        Some(raw) => match parse_as(param.kind, raw) {
            Some(value) => Ok(value),
            None => Err(Failure::BadArgs(parse_message(raw, param.name))),
        },
        None => if param.optional {
            Ok(omitted_value(param))
        } else {
            Err(Failure::BadArgs(missing_message(param.name)))
        },
    }
}

/// The text supplied for the parameter at position `i`, if any.
pub open spec fn supplied_at(args: Seq<Seq<char>>, i: int) -> Option<Seq<char>> {
    if 0 <= i < args.len() {
        Some(args[i])
    } else {
        None
    }
}

/// The typed values of the first `n` parameters, in order, or the failure
/// of the first parameter that cannot be bound.
pub open spec fn bind_prefix(params: Seq<ParamView>, args: Seq<Seq<char>>, n: nat) -> Result<
    Seq<ArgView>,
    Failure,
>
    decreases n,
{
    if n == 0 {
        Ok(Seq::empty())
    } else {
        match bind_prefix(params, args, (n - 1) as nat) {
            Err(failure) => Err(failure),
            Ok(typed) => match bind_one(params[n - 1], supplied_at(args, n - 1)) {
                Ok(value) => Ok(typed.push(value)),
                Err(failure) => Err(failure),
            },
        }
    }
}

/// What binding `args` to `params` gives: the count of arguments must lie
/// between the number of required parameters and the number of all
/// parameters; then each parameter is bound in order.
pub open spec fn bound(params: Seq<ParamView>, args: Seq<Seq<char>>) -> Result<
    Seq<ArgView>,
    Failure,
> {
    if args.len() < required_count(params) || args.len() > params.len() {
        Err(Failure::BadArgs(count_message(required_count(params), params.len(), args.len())))
    } else {
        bind_prefix(params, args, params.len())
    }
}

/// The mathematical value of the outcome of a binding.
pub open spec fn binding(r: Result<Vec<Arg>, ToolError>) -> Result<Seq<ArgView>, Failure> {
    match r {
        Ok(typed) => Ok(args_view(typed@)),
        Err(e) => Err(e@),
    }
}

/// Whether `value` is a value of the type `kind`.
pub open spec fn of_kind(value: ArgView, kind: ParamKind) -> bool {
    match kind {
        ParamKind::Integer => value is Integer && i64::MIN <= value->Integer_0 <= i64::MAX,
        ParamKind::IntegerIn(low, high) => value is Integer && low <= value->Integer_0 <= high,
        ParamKind::Number => value is Number && is_float_literal(value->Number_0),
        ParamKind::Boolean => value is Boolean,
        ParamKind::String => value is String,
    }
}

/// Whether `typed` is a list of arguments for `params`: one per parameter,
/// each of its parameter's type, or, for an optional parameter, what an
/// omitted one receives.
pub open spec fn fits(params: Seq<ParamView>, typed: Seq<ArgView>) -> bool {
    &&& typed.len() == params.len()
    &&& forall|i: int|
        0 <= i < params.len() ==> of_kind(#[trigger] typed[i], params[i].kind) || (
        params[i].optional && typed[i] == omitted_value(params[i]))
}

/// Reads `raw` as a value of type `kind`.
pub fn parse_arg(kind: ParamKind, raw: &str) -> (r: Option<Arg>)
    ensures
        match r {
            Some(value) => parse_as(kind, raw@) == Some(value@),
            None => parse_as(kind, raw@) is None,
        },
{
    match kind {
        ParamKind::Integer => match parse_i64(raw) {
            Some(n) => Some(Arg::Integer(n as i128)),
            None => None,
        },
        ParamKind::IntegerIn(low, high) => match parse_i128(raw) {
            Some(n) => if low <= n && n <= high && !(low >= 0 && starts_with_minus(raw)) {
                Some(Arg::Integer(n))
            } else {
                None
            },
            None => None,
        },
        ParamKind::Number => if float_literal(raw) {
            Some(Arg::Number(String::from_str(raw)))
        } else {
            None
        },
        ParamKind::Boolean => if *raw == *"true" {
            Some(Arg::Boolean(true))
        } else if *raw == *"false" {
            Some(Arg::Boolean(false))
        } else {
            None
        },
        ParamKind::String => Some(Arg::String(String::from_str(raw))),
    }
}

/// How many parameters of `params` a call must supply.
pub fn count_required(params: &Vec<Param>) -> (r: usize)
    ensures
        r == required_count(params_view(params@)),
        r <= params.len(),
{
    let mut count: usize = 0;
    let mut i: usize = 0;
    while i < params.len()
        invariant
            i <= params.len(),
            count <= i,
            count == required_among(params_view(params@), i as nat),
        decreases params.len() - i,
    {
        if !params[i].optional {
            count += 1;
        }
        i += 1;
    }
    count
}

fn count_error(min: usize, max: usize, got: usize) -> (r: ToolError)
    ensures
        r@ == Failure::BadArgs(count_message(min as nat, max as nat, got as nat)),
{
    let mut message = String::from_str("Expected between ");
    push_decimal(&mut message, min as u128);
    message.append(" and ");
    push_decimal(&mut message, max as u128);
    message.append(" arguments, got ");
    push_decimal(&mut message, got as u128);
    ToolError::BadArgs(message)
}

fn parse_error(raw: &str, name: &str) -> (r: ToolError)
    ensures
        r@ == Failure::BadArgs(parse_message(raw@, name@)),
{
    let mut message = String::from_str("Failed to parse argument '");
    message.append(raw);
    message.append("' for parameter '");
    message.append(name);
    message.append("'");
    ToolError::BadArgs(message)
}

/// Binds the positional arguments `args` to the parameters `params`.
pub fn bind(params: &Vec<Param>, args: &[String]) -> (r: Result<Vec<Arg>, ToolError>)
    ensures
        binding(r) == bound(params_view(params@), views(args@)),
{
    let required = count_required(params);
    if args.len() < required || args.len() > params.len() {
        return Err(count_error(required, params.len(), args.len()));
    }
    let mut typed: Vec<Arg> = Vec::new();
    let mut i: usize = 0;
    proof {
        assert(args_view(typed@) =~= Seq::<ArgView>::empty());
    }
    while i < params.len()
        invariant
            i <= params.len(),
            required_count(params_view(params@)) <= args.len() <= params.len(),
            bind_prefix(params_view(params@), views(args@), i as nat) == Ok::<
                Seq<ArgView>,
                Failure,
            >(args_view(typed@)),
        decreases params.len() - i,
    {
        let param = &params[i];
        let ghost before = args_view(typed@);
        let value = if i < args.len() {
            match parse_arg(param.kind, args[i].as_str()) {
                Some(value) => value,
                None => {
                    proof {
                        lemma_failure_persists(
                            params_view(params@),
                            views(args@),
                            (i + 1) as nat,
                            params.len() as nat,
                        );
                    }
                    return Err(parse_error(args[i].as_str(), param.name.as_str()));
                },
            }
        } else if param.optional {
            match &param.default {
                Some(value) => value.clone(),
                None => Arg::Absent,
            }
        } else {
            proof {
                lemma_failure_persists(
                    params_view(params@),
                    views(args@),
                    (i + 1) as nat,
                    params.len() as nat,
                );
            }
            return Err(ToolError::missing_argument(param.name.as_str()));
        };
        typed.push(value);
        proof {
            assert(args_view(typed@) =~= before.push(value@));
        }
        i += 1;
    }
    Ok(typed)
}

/// The message of the failure reported when a tool's execution breaks off.
pub open spec fn crash_message() -> Seq<char> {
    "panic in tool"@
}

/// How the run of a tool's implementation ended.
#[derive(Debug)]
pub enum Completion {
    /// The implementation returned, with a result or a failure of its own.
    Returned(Result<String, ToolError>),
    /// The implementation broke off without returning.
    Crashed,
}

/// The outcome of a call whose implementation ended as `completion` says:
/// what the implementation returned, or, where it broke off, an
/// `Execution` failure that says so.
pub fn settle(completion: Completion) -> (r: Result<String, ToolError>)
    ensures
        match completion {
            Completion::Returned(result) => r == result,
            Completion::Crashed => outcome(r) == Err::<Seq<char>, Failure>(
                Failure::Execution(crash_message()),
            ),
        },
{
    match completion {
        Completion::Returned(result) => result,
        Completion::Crashed => Err(ToolError::Execution(String::from_str("panic in tool"))),
    }
}

/// Once a parameter fails to bind, binding more parameters reports the same
/// failure.
pub proof fn lemma_failure_persists(
    params: Seq<ParamView>,
    args: Seq<Seq<char>>,
    n: nat,
    m: nat,
)
    requires
        n <= m,
        bind_prefix(params, args, n) is Err,
    ensures
        bind_prefix(params, args, m) == bind_prefix(params, args, n),
    decreases m,
{
    if n < m {
        lemma_failure_persists(params, args, n, (m - 1) as nat);
    }
}

/// A binding that succeeds gives one typed value per parameter.
pub proof fn lemma_bind_prefix_length(params: Seq<ParamView>, args: Seq<Seq<char>>, n: nat)
    ensures
        bind_prefix(params, args, n) is Ok ==> bind_prefix(params, args, n)->Ok_0.len() == n,
    decreases n,
{
    if n > 0 {
        lemma_bind_prefix_length(params, args, (n - 1) as nat);
    }
}

/// A binding that succeeds gives one typed value per parameter.
pub proof fn lemma_bound_length(params: Seq<ParamView>, args: Seq<Seq<char>>)
    ensures
        bound(params, args) is Ok ==> bound(params, args)->Ok_0.len() == params.len(),
{
    lemma_bind_prefix_length(params, args, params.len());
}

/// Where each of the first `n` parameters binds, binding them gives their
/// values in order.
pub proof fn lemma_bind_prefix_all(params: Seq<ParamView>, args: Seq<Seq<char>>, n: nat)
    requires
        forall|i: int| 0 <= i < n ==> (#[trigger] bind_one(params[i], supplied_at(args, i))) is Ok,
    ensures
        bind_prefix(params, args, n) == Ok::<Seq<ArgView>, Failure>(
            Seq::new(n, |i: int| bind_one(params[i], supplied_at(args, i))->Ok_0),
        ),
    decreases n,
{
    if n > 0 {
        lemma_bind_prefix_all(params, args, (n - 1) as nat);
        let shorter = Seq::new(
            (n - 1) as nat,
            |i: int| bind_one(params[i], supplied_at(args, i))->Ok_0,
        );
        let longer = Seq::new(n, |i: int| bind_one(params[i], supplied_at(args, i))->Ok_0);
        assert(bind_one(params[n - 1], supplied_at(args, n - 1)) is Ok);
        assert(shorter.push(bind_one(params[n - 1], supplied_at(args, n - 1))->Ok_0) =~= longer);
    } else {
        assert(Seq::new(0, |i: int| bind_one(params[i], supplied_at(args, i))->Ok_0)
            =~= Seq::<ArgView>::empty());
    }
}

/// Where the parameters before position `k` bind and the one at `k` does
/// not, binding `k` parameters or more reports the failure of the one at
/// `k`.
pub proof fn lemma_bind_prefix_first_failure(
    params: Seq<ParamView>,
    args: Seq<Seq<char>>,
    k: nat,
    n: nat,
)
    requires
        k < n,
        forall|i: int| 0 <= i < k ==> (#[trigger] bind_one(params[i], supplied_at(args, i))) is Ok,
        bind_one(params[k as int], supplied_at(args, k as int)) is Err,
    ensures
        bind_prefix(params, args, n) == Err::<Seq<ArgView>, Failure>(
            bind_one(params[k as int], supplied_at(args, k as int))->Err_0,
        ),
{
    lemma_bind_prefix_all(params, args, k);
    lemma_failure_persists(params, args, k + 1, n);
}

proof fn lemma_bind_prefix_values(params: Seq<ParamView>, args: Seq<Seq<char>>, n: nat, i: int)
    requires
        bind_prefix(params, args, n) is Ok,
        0 <= i < n,
    ensures
        bind_prefix(params, args, n)->Ok_0.len() == n,
        bind_one(params[i], supplied_at(args, i)) == Ok::<ArgView, Failure>(
            bind_prefix(params, args, n)->Ok_0[i],
        ),
    decreases n,
{
    lemma_bind_prefix_length(params, args, n);
    lemma_bind_prefix_length(params, args, (n - 1) as nat);
    if i < n - 1 {
        lemma_bind_prefix_values(params, args, (n - 1) as nat, i);
    }
}

/// What a binding that succeeds gives, parameter by parameter: the parse of
/// the text supplied at its position, or, with none supplied, the default
/// or absent value.
pub proof fn lemma_bound_values(params: Seq<ParamView>, args: Seq<Seq<char>>, i: int)
    requires
        bound(params, args) is Ok,
        0 <= i < params.len(),
    ensures
        bound(params, args)->Ok_0.len() == params.len(),
        i < args.len() ==> parse_as(params[i].kind, args[i]) == Some(bound(params, args)->Ok_0[i]),
        i >= args.len() ==> params[i].optional && bound(params, args)->Ok_0[i] == omitted_value(
            params[i],
        ),
{
    lemma_bound_length(params, args);
    lemma_bind_prefix_values(params, args, params.len(), i);
}

/// What a binding gives fits the parameters.
pub proof fn lemma_bound_fits(params: Seq<ParamView>, args: Seq<Seq<char>>)
    requires
        bound(params, args) is Ok,
    ensures
        fits(params, bound(params, args)->Ok_0),
{
    let typed = bound(params, args)->Ok_0;
    lemma_bound_length(params, args);
    assert forall|i: int| 0 <= i < params.len() implies of_kind(
        #[trigger] typed[i],
        params[i].kind,
    ) || (params[i].optional && typed[i] == omitted_value(params[i])) by {
        lemma_bound_values(params, args, i);
    }
}

/// As many parameters are required as are not optional: where exactly the
/// first `k` of the first `n` parameters are not optional, `k` of them are
/// required.
pub proof fn lemma_required_first(params: Seq<ParamView>, k: nat, n: nat)
    requires
        k <= n <= params.len(),
        forall|i: int| 0 <= i < n ==> ((#[trigger] params[i]).optional <==> k <= i),
    ensures
        required_among(params, n) == k,
    decreases n,
{
    if n > 0 {
        if k == n {
            lemma_required_first(params, (k - 1) as nat, (n - 1) as nat);
        } else {
            lemma_required_first(params, k, (n - 1) as nat);
        }
    }
}

/// A call that supplies exactly the required parameters, which come first,
/// each in a text that reads as its parameter's type, binds: the supplied
/// texts give the first values, and each omitted optional parameter
/// receives its declared default or the absent value.
pub proof fn lemma_required_only(params: Seq<ParamView>, args: Seq<Seq<char>>)
    requires
        args.len() <= params.len(),
        forall|i: int| 0 <= i < params.len() ==> ((#[trigger] params[i]).optional <==> args.len() <= i),
        forall|i: int| 0 <= i < args.len() ==> parse_as(params[i].kind, #[trigger] args[i]) is Some,
    ensures
        args.len() == required_count(params),
        bound(params, args) is Ok,
        bound(params, args)->Ok_0.len() == params.len(),
        forall|i: int|
            0 <= i < args.len() ==> #[trigger] bound(params, args)->Ok_0[i] == parse_as(
                params[i].kind,
                args[i],
            )->0,
        forall|i: int|
            args.len() <= i < params.len() ==> #[trigger] bound(params, args)->Ok_0[i]
                == omitted_value(params[i]),
{
    lemma_required_first(params, args.len(), params.len());
    assert forall|i: int| 0 <= i < params.len() implies (#[trigger] bind_one(
        params[i],
        supplied_at(args, i),
    )) is Ok by {
        if i < args.len() {
            assert(parse_as(params[i].kind, args[i]) is Some);
        } else {
            assert(params[i].optional);
        }
    }
    lemma_bind_prefix_all(params, args, params.len());
    let typed = bound(params, args)->Ok_0;
    assert forall|i: int| 0 <= i < args.len() implies #[trigger] typed[i] == parse_as(
        params[i].kind,
        args[i],
    )->0 by {
        assert(parse_as(params[i].kind, args[i]) is Some);
    }
    assert forall|i: int| args.len() <= i < params.len() implies #[trigger] typed[i]
        == omitted_value(params[i]) by {
        assert(params[i].optional);
    }
}

/// A call with fewer arguments than required parameters, or more than
/// parameters, is refused with the two bounds and the count.
pub proof fn lemma_count_mismatch(params: Seq<ParamView>, args: Seq<Seq<char>>)
    requires
        args.len() < required_count(params) || args.len() > params.len(),
    ensures
        bound(params, args) == Err::<Seq<ArgView>, Failure>(
            Failure::BadArgs(
                count_message(required_count(params), params.len(), args.len()),
            ),
        ),
{
}

/// A call whose count is in range, whose arguments before position `k` read
/// as their parameters' types, and whose argument at `k` does not, is
/// refused with that argument's text and that parameter's name.
pub proof fn lemma_parse_failure(params: Seq<ParamView>, args: Seq<Seq<char>>, k: int)
    requires
        required_count(params) <= args.len() <= params.len(),
        0 <= k < args.len(),
        forall|i: int| 0 <= i < k ==> parse_as(params[i].kind, #[trigger] args[i]) is Some,
        parse_as(params[k].kind, args[k]) is None,
    ensures
        bound(params, args) == Err::<Seq<ArgView>, Failure>(
            Failure::BadArgs(parse_message(args[k], params[k].name)),
        ),
{
    assert forall|i: int| 0 <= i < k implies (#[trigger] bind_one(
        params[i],
        supplied_at(args, i),
    )) is Ok by {
        assert(parse_as(params[i].kind, args[i]) is Some);
    }
    lemma_bind_prefix_first_failure(params, args, k as nat, params.len());
}

} // verus!
