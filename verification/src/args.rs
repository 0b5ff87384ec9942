//! Command-line parsing for the runner.
//!
//! Parsing happens in two steps. [`scan_args`] walks the arguments and
//! records the value given to each flag (or stops at `--help`, `--version`
//! or a malformed flag). [`resolve_run_config`] then combines the recorded
//! values with the configuration file named by `--config` (read by the
//! caller) and the defaults into a [`RunConfig`], checking each setting.
//! [`parse_args`] runs both steps.
use vstd::prelude::*;
use crate::cli::{EmbedBackend, ParsedCommand, RunConfig};
use crate::config::PipelineConfig;
use crate::error::{RagloomError, RagloomErrorKind};
use crate::text::{all_ws, chars_of, decimal, is_blank, owned, push_decimal, str_eq, string_from_range};

verus! {

// ---------------------------------------------------------------------------
// Unsigned decimal numbers
// ---------------------------------------------------------------------------

/// Why a decimal number was refused.
#[derive(Debug, Clone, Copy, PartialEq, Eq)]
pub enum IntParseError {
    /// The text is empty.
    Empty,
    /// A character other than an ASCII digit (after an optional leading `+`).
    InvalidDigit,
    /// The value exceeds the target type.
    PosOverflow,
}

pub open spec fn is_digit(c: char) -> bool {
    '0' <= c && c <= '9'
}

pub open spec fn digit_value(c: char) -> int {
    c as int - '0' as int
}

/// Reads the digits of `d` left to right onto `acc`; the first non-digit,
/// or the first digit that takes the value above `limit`, stops the reading.
pub open spec fn digits_value(d: Seq<char>, acc: nat, limit: nat) -> Result<nat, IntParseError>
    decreases d.len(),
{
    if d.len() == 0 {
        Ok(acc)
    } else if !is_digit(d[0]) {
        Err(IntParseError::InvalidDigit)
    } else if acc * 10 + digit_value(d[0]) > limit {
        Err(IntParseError::PosOverflow)
    } else {
        digits_value(d.drop_first(), (acc * 10 + digit_value(d[0])) as nat, limit)
    }
}

/// An unsigned decimal number no larger than `limit`, with an optional
/// leading `+`; a lone sign is an invalid digit.
pub open spec fn unsigned_value(s: Seq<char>, limit: nat) -> Result<nat, IntParseError> {
    if s.len() == 0 {
        Err(IntParseError::Empty)
    } else if s.len() == 1 && (s[0] == '+' || s[0] == '-') {
        Err(IntParseError::InvalidDigit)
    } else if s[0] == '+' {
        digits_value(s.drop_first(), 0, limit)
    } else {
        digits_value(s, 0, limit)
    }
}

proof fn lemma_digits_bounded(d: Seq<char>, acc: nat, limit: nat)
    requires
        acc <= limit,
    ensures
        digits_value(d, acc, limit) matches Ok(n) ==> n <= limit,
    decreases d.len(),
{
    if d.len() > 0 && is_digit(d[0]) && acc * 10 + digit_value(d[0]) <= limit {
        lemma_digits_bounded(d.drop_first(), (acc * 10 + digit_value(d[0])) as nat, limit);
    }
}

/// An accepted number does not exceed the limit.
pub proof fn lemma_unsigned_bounded(s: Seq<char>, limit: nat)
    ensures
        unsigned_value(s, limit) matches Ok(n) ==> n <= limit,
{
    if s.len() > 0 {
        lemma_digits_bounded(s.drop_first(), 0, limit);
        lemma_digits_bounded(s, 0, limit);
    }
}

/// The message that describes a refused number.
pub open spec fn int_error_text(e: IntParseError) -> Seq<char> {
    match e {
        IntParseError::Empty => "cannot parse integer from empty string"@,
        IntParseError::InvalidDigit => "invalid digit found in string"@,
        IntParseError::PosOverflow => "number too large to fit in target type"@,
    }
}

/// Appends the message of a refused number.
pub fn push_int_error(s: &mut String, e: IntParseError)
    ensures
        final(s)@ == old(s)@ + int_error_text(e),
{
    match e {
        IntParseError::Empty => s.push_str("cannot parse integer from empty string"),
        IntParseError::InvalidDigit => s.push_str("invalid digit found in string"),
        IntParseError::PosOverflow => s.push_str("number too large to fit in target type"),
    }
}

/// Parses an unsigned decimal number that must not exceed `limit`.
pub fn parse_unsigned(s: &str, limit: usize) -> (r: Result<usize, IntParseError>)
    ensures
        match unsigned_value(s@, limit as nat) {
            Ok(n) => r == Ok::<usize, IntParseError>(n as usize),
            Err(e) => r == Err::<usize, IntParseError>(e),
        },
        r matches Ok(n) ==> n <= limit,
{
    let chars = chars_of(s);
    let n = chars.len();
    if n == 0 {
        return Err(IntParseError::Empty);
    }
    if n == 1 && (chars[0] == '+' || chars[0] == '-') {
        return Err(IntParseError::InvalidDigit);
    }
    let start: usize = if chars[0] == '+' { 1 } else { 0 };
    proof {
        if chars@[0] == '+' {
            assert(chars@.drop_first() =~= chars@.skip(1));
        } else {
            assert(chars@ =~= chars@.skip(0));
        }
    }
    let mut acc: usize = 0;
    let mut i: usize = start;
    while i < n
        invariant
            start <= i <= n == chars@.len(),
            chars@ == s@,
            acc <= limit,
            unsigned_value(s@, limit as nat) == digits_value(chars@.skip(i as int), acc as nat, limit as nat),
        decreases n - i,
    {
        let c = chars[i];
        let ghost rest = chars@.skip(i as int);
        assert(rest[0] == c);
        assert(rest.drop_first() =~= chars@.skip(i + 1));
        if !('0' <= c && c <= '9') {
            return Err(IntParseError::InvalidDigit);
        }
        let d: usize = (c as u32 - '0' as u32) as usize;
        assert(d as int == digit_value(c));
        if d > limit || acc > (limit - d) / 10 {
            assert(acc * 10 + d > limit) by (nonlinear_arith)
                requires
                    d > limit || acc > (limit - d) / 10,
                    d <= 9,
            ;
            return Err(IntParseError::PosOverflow);
        }
        assert(acc * 10 + d <= limit) by (nonlinear_arith)
            requires
                d <= limit,
                acc <= (limit - d) / 10,
        ;
        acc = acc * 10 + d;
        i += 1;
    }
    assert(chars@.skip(n as int).len() == 0);
    Ok(acc)
}


// ---------------------------------------------------------------------------
// Flags
// ---------------------------------------------------------------------------

/// The flags that take a value.
#[derive(Debug, Clone, Copy, PartialEq, Eq, Structural)]
pub enum Flag {
    Config,
    Dir,
    EmbedBackend,
    EmbedUrl,
    EmbedModel,
    OpenaiEndpoint,
    OpenaiApiKey,
    OpenaiModel,
    QdrantUrl,
    Collection,
    StatePath,
    CollectionVectorSize,
    ChunkerStrategy,
    SizeMetric,
    SizeMax,
    SizeMin,
    SizeOverlap,
    Tokenizer,
    ChunkerMode,
    ChunkerSingle,
    SemanticProvider,
    SemanticPercentile,
}

/// Number of value-taking flags.
pub const FLAG_COUNT: usize = 22;

/// Where the value of a flag is kept.
pub open spec fn slot_of(f: Flag) -> int {
    match f {
        Flag::Config => 0,
        Flag::Dir => 1,
        Flag::EmbedBackend => 2,
        Flag::EmbedUrl => 3,
        Flag::EmbedModel => 4,
        Flag::OpenaiEndpoint => 5,
        Flag::OpenaiApiKey => 6,
        Flag::OpenaiModel => 7,
        Flag::QdrantUrl => 8,
        Flag::Collection => 9,
        Flag::StatePath => 10,
        Flag::CollectionVectorSize => 11,
        Flag::ChunkerStrategy => 12,
        Flag::SizeMetric => 13,
        Flag::SizeMax => 14,
        Flag::SizeMin => 15,
        Flag::SizeOverlap => 16,
        Flag::Tokenizer => 17,
        Flag::ChunkerMode => 18,
        Flag::ChunkerSingle => 19,
        Flag::SemanticProvider => 20,
        Flag::SemanticPercentile => 21,
    }
}

fn slot(f: Flag) -> (i: usize)
    ensures
        i == slot_of(f),
        i < FLAG_COUNT,
{
    match f {
        Flag::Config => 0,
        Flag::Dir => 1,
        Flag::EmbedBackend => 2,
        Flag::EmbedUrl => 3,
        Flag::EmbedModel => 4,
        Flag::OpenaiEndpoint => 5,
        Flag::OpenaiApiKey => 6,
        Flag::OpenaiModel => 7,
        Flag::QdrantUrl => 8,
        Flag::Collection => 9,
        Flag::StatePath => 10,
        Flag::CollectionVectorSize => 11,
        Flag::ChunkerStrategy => 12,
        Flag::SizeMetric => 13,
        Flag::SizeMax => 14,
        Flag::SizeMin => 15,
        Flag::SizeOverlap => 16,
        Flag::Tokenizer => 17,
        Flag::ChunkerMode => 18,
        Flag::ChunkerSingle => 19,
        Flag::SemanticProvider => 20,
        Flag::SemanticPercentile => 21,
    }
}

/// What an argument's flag name means.
#[derive(Debug, Clone, Copy, PartialEq, Eq)]
pub enum ArgKind {
    Value(Flag),
    CreateCollection,
    EnableSemantic,
    Help,
    Version,
    Unknown,
}

/// The meaning of a flag name.
pub open spec fn arg_kind(name: Seq<char>) -> ArgKind {
    if name == "--config"@ { ArgKind::Value(Flag::Config) }
    else if name == "--dir"@ { ArgKind::Value(Flag::Dir) }
    else if name == "--embed-backend"@ { ArgKind::Value(Flag::EmbedBackend) }
    else if name == "--embed-url"@ { ArgKind::Value(Flag::EmbedUrl) }
    else if name == "--embed-model"@ { ArgKind::Value(Flag::EmbedModel) }
    else if name == "--openai-endpoint"@ { ArgKind::Value(Flag::OpenaiEndpoint) }
    else if name == "--openai-api-key"@ { ArgKind::Value(Flag::OpenaiApiKey) }
    else if name == "--openai-model"@ { ArgKind::Value(Flag::OpenaiModel) }
    else if name == "--qdrant-url"@ { ArgKind::Value(Flag::QdrantUrl) }
    else if name == "--collection"@ { ArgKind::Value(Flag::Collection) }
    else if name == "--state-path"@ { ArgKind::Value(Flag::StatePath) }
    else if name == "--create-collection-if-missing"@ { ArgKind::CreateCollection }
    else if name == "--collection-vector-size"@ { ArgKind::Value(Flag::CollectionVectorSize) }
    else if name == "--chunker-strategy"@ { ArgKind::Value(Flag::ChunkerStrategy) }
    else if name == "--size-metric"@ { ArgKind::Value(Flag::SizeMetric) }
    else if name == "--size-max"@ { ArgKind::Value(Flag::SizeMax) }
    else if name == "--size-min"@ { ArgKind::Value(Flag::SizeMin) }
    else if name == "--size-overlap"@ { ArgKind::Value(Flag::SizeOverlap) }
    else if name == "--tokenizer"@ { ArgKind::Value(Flag::Tokenizer) }
    else if name == "--chunker-mode"@ { ArgKind::Value(Flag::ChunkerMode) }
    else if name == "--chunker-single"@ { ArgKind::Value(Flag::ChunkerSingle) }
    else if name == "--enable-semantic"@ { ArgKind::EnableSemantic }
    else if name == "--semantic-provider"@ { ArgKind::Value(Flag::SemanticProvider) }
    else if name == "--semantic-percentile"@ { ArgKind::Value(Flag::SemanticPercentile) }
    else if name == "--help"@ || name == "-h"@ { ArgKind::Help }
    else if name == "--version"@ || name == "-V"@ { ArgKind::Version }
    else { ArgKind::Unknown }
}

/// The meaning of the flag name `name`.
pub fn classify(name: &str) -> (k: ArgKind)
    ensures
        k == arg_kind(name@),
{
    if str_eq(name, "--config") { ArgKind::Value(Flag::Config) }
    else if str_eq(name, "--dir") { ArgKind::Value(Flag::Dir) }
    else if str_eq(name, "--embed-backend") { ArgKind::Value(Flag::EmbedBackend) }
    else if str_eq(name, "--embed-url") { ArgKind::Value(Flag::EmbedUrl) }
    else if str_eq(name, "--embed-model") { ArgKind::Value(Flag::EmbedModel) }
    else if str_eq(name, "--openai-endpoint") { ArgKind::Value(Flag::OpenaiEndpoint) }
    else if str_eq(name, "--openai-api-key") { ArgKind::Value(Flag::OpenaiApiKey) }
    else if str_eq(name, "--openai-model") { ArgKind::Value(Flag::OpenaiModel) }
    else if str_eq(name, "--qdrant-url") { ArgKind::Value(Flag::QdrantUrl) }
    else if str_eq(name, "--collection") { ArgKind::Value(Flag::Collection) }
    else if str_eq(name, "--state-path") { ArgKind::Value(Flag::StatePath) }
    else if str_eq(name, "--create-collection-if-missing") { ArgKind::CreateCollection }
    else if str_eq(name, "--collection-vector-size") { ArgKind::Value(Flag::CollectionVectorSize) }
    else if str_eq(name, "--chunker-strategy") { ArgKind::Value(Flag::ChunkerStrategy) }
    else if str_eq(name, "--size-metric") { ArgKind::Value(Flag::SizeMetric) }
    else if str_eq(name, "--size-max") { ArgKind::Value(Flag::SizeMax) }
    else if str_eq(name, "--size-min") { ArgKind::Value(Flag::SizeMin) }
    else if str_eq(name, "--size-overlap") { ArgKind::Value(Flag::SizeOverlap) }
    else if str_eq(name, "--tokenizer") { ArgKind::Value(Flag::Tokenizer) }
    else if str_eq(name, "--chunker-mode") { ArgKind::Value(Flag::ChunkerMode) }
    else if str_eq(name, "--chunker-single") { ArgKind::Value(Flag::ChunkerSingle) }
    else if str_eq(name, "--enable-semantic") { ArgKind::EnableSemantic }
    else if str_eq(name, "--semantic-provider") { ArgKind::Value(Flag::SemanticProvider) }
    else if str_eq(name, "--semantic-percentile") { ArgKind::Value(Flag::SemanticPercentile) }
    else if str_eq(name, "--help") || str_eq(name, "-h") { ArgKind::Help }
    else if str_eq(name, "--version") || str_eq(name, "-V") { ArgKind::Version }
    else { ArgKind::Unknown }
}

/// Position of the first `=` in `s`.
pub open spec fn first_eq(s: Seq<char>) -> Option<nat>
    decreases s.len(),
{
    if s.len() == 0 {
        None
    } else if s[0] == '=' {
        Some(0)
    } else {
        match first_eq(s.drop_first()) {
            Some(k) => Some(k + 1),
            None => None,
        }
    }
}

/// An argument split at its first `=` into the flag name and an inline value.
pub open spec fn split_flag(arg: Seq<char>) -> (Seq<char>, Option<Seq<char>>) {
    match first_eq(arg) {
        Some(k) => (arg.take(k as int), Some(arg.skip(k as int + 1))),
        None => (arg, None),
    }
}

proof fn lemma_first_eq(s: Seq<char>, i: int)
    requires
        0 <= i <= s.len(),
        forall|j: int| 0 <= j < i ==> s[j] != '=',
        i < s.len() ==> s[i] == '=',
    ensures
        first_eq(s) == (if i < s.len() { Some(i as nat) } else { None::<nat> }),
    decreases i,
{
    if s.len() > 0 && i > 0 {
        lemma_first_eq(s.drop_first(), i - 1);
    }
}

/// Splits an argument at its first `=`.
fn split_arg(arg: &str) -> (r: (String, Option<String>))
    ensures
        r.0@ == split_flag(arg@).0,
        match split_flag(arg@).1 {
            Some(v) => r.1 matches Some(x) && x@ == v,
            None => r.1 is None,
        },
{
    let chars = chars_of(arg);
    let n = chars.len();
    let mut i: usize = 0;
    while i < n && chars[i] != '='
        invariant
            i <= n == chars@.len(),
            forall|j: int| 0 <= j < i ==> chars@[j] != '=',
        decreases n - i,
    {
        i += 1;
    }
    proof {
        lemma_first_eq(chars@, i as int);
    }
    if i < n {
        let name = string_from_range(&chars, 0, i);
        let value = string_from_range(&chars, i + 1, n);
        assert(chars@.subrange(0, i as int) =~= chars@.take(i as int));
        assert(chars@.subrange(i + 1, n as int) =~= chars@.skip(i + 1));
        (name, Some(value))
    } else {
        let name = string_from_range(&chars, 0, n);
        assert(chars@.subrange(0, n as int) =~= chars@);
        (name, None)
    }
}

// ---------------------------------------------------------------------------
// Scanning the arguments
// ---------------------------------------------------------------------------

/// The values recorded while scanning: one optional value per flag (by
/// [`slot_of`]), and the two switches.
pub struct FlagsView {
    pub values: Seq<Option<Seq<char>>>,
    pub create_collection_if_missing: bool,
    pub enable_semantic: bool,
}

impl FlagsView {
    /// Nothing recorded yet.
    pub open spec fn initial() -> FlagsView {
        FlagsView {
            values: Seq::new(FLAG_COUNT as nat, |i: int| None::<Seq<char>>),
            create_collection_if_missing: false,
            enable_semantic: false,
        }
    }

    /// The value recorded for `f`.
    pub open spec fn value(self, f: Flag) -> Option<Seq<char>> {
        self.values[slot_of(f)]
    }

    /// `v` recorded for `f`, replacing what was there.
    pub open spec fn with_value(self, f: Flag, v: Option<Seq<char>>) -> FlagsView {
        FlagsView { values: self.values.update(slot_of(f), v), ..self }
    }
}

/// Where a scan of the arguments ends.
pub enum ScanOutcome {
    Help,
    Version,
    Flags(FlagsView),
    /// A malformed argument, with the message that describes it.
    Failed(Seq<char>),
}

/// The usage line appended to the messages of malformed command lines.
pub open spec fn usage_text() -> Seq<char> {
    "usage: ragloom [--config <path>] --dir <path> --qdrant-url <url> --collection <name> [--state-path <path>] [--embed-backend <openai|http>]"@
}

/// The usage line of the runner.
pub fn usage_line() -> (s: &'static str)
    ensures
        s@ == usage_text(),
{
    "usage: ragloom [--config <path>] --dir <path> --qdrant-url <url> --collection <name> [--state-path <path>] [--embed-backend <openai|http>]"
}

/// A command-line message followed by the usage line.
pub open spec fn with_usage(msg: Seq<char>) -> Seq<char> {
    msg + "\n"@ + usage_text()
}

/// Scans `args` from position `i` on, with `st` recorded so far.
///
/// Each argument is split at its first `=`: the part before is the flag
/// name, the part after an inline value. A value-taking flag takes its
/// inline value, else the next argument (which is then consumed), else
/// nothing; a later occurrence replaces an earlier one.
/// `--collection-vector-size` must get a value; `--create-collection-if-missing`
/// must not have an inline one. `--help`/`-h` and `--version`/`-V` end the
/// scan at once; an unknown flag name is refused.
pub open spec fn scan_from(args: Seq<Seq<char>>, i: int, st: FlagsView) -> ScanOutcome
    decreases args.len() - i,
{
    if i < 0 || i >= args.len() {
        ScanOutcome::Flags(st)
    } else {
        let name = split_flag(args[i]).0;
        let inline = split_flag(args[i]).1;
        let takes_next = inline is None && i + 1 < args.len();
        let value = if inline is Some { inline } else if takes_next { Some(args[i + 1]) } else { None };
        let after = if takes_next { i + 2 } else { i + 1 };
        match arg_kind(name) {
            ArgKind::Value(f) => {
                if f == Flag::CollectionVectorSize && value is None {
                    ScanOutcome::Failed(with_usage("missing required value: --collection-vector-size"@))
                } else {
                    scan_from(args, after, st.with_value(f, value))
                }
            },
            ArgKind::CreateCollection => {
                if inline is Some {
                    ScanOutcome::Failed(with_usage("--create-collection-if-missing does not accept a value"@))
                } else {
                    scan_from(args, i + 1, FlagsView { create_collection_if_missing: true, ..st })
                }
            },
            ArgKind::EnableSemantic => scan_from(args, i + 1, FlagsView { enable_semantic: true, ..st }),
            ArgKind::Help => ScanOutcome::Help,
            ArgKind::Version => ScanOutcome::Version,
            ArgKind::Unknown => ScanOutcome::Failed(with_usage("unknown flag: "@ + name)),
        }
    }
}

/// The views of the arguments.
pub open spec fn arg_views(args: Seq<String>) -> Seq<Seq<char>> {
    args.map_values(|a: String| a@)
}

/// Scan of a whole command line; the first argument is the program name.
pub open spec fn scan_command(args: Seq<String>) -> ScanOutcome {
    scan_from(arg_views(args), 1, FlagsView::initial())
}

/// The view of an optional string.
pub open spec fn opt_view(o: Option<String>) -> Option<Seq<char>> {
    match o {
        Some(s) => Some(s@),
        None => None,
    }
}

/// The values given on the command line, one per value-taking flag.
pub struct CliFlags {
    values: Vec<Option<String>>,
    create_collection_if_missing: bool,
    enable_semantic: bool,
}

impl View for CliFlags {
    type V = FlagsView;

    closed spec fn view(&self) -> FlagsView {
        FlagsView {
            values: self.values@.map_values(|o: Option<String>| opt_view(o)),
            create_collection_if_missing: self.create_collection_if_missing,
            enable_semantic: self.enable_semantic,
        }
    }
}

impl CliFlags {
    #[verifier::type_invariant]
    spec fn well_formed(self) -> bool {
        self.values@.len() == FLAG_COUNT
    }

    /// The value given for `f`, if any.
    pub fn value(&self, f: Flag) -> (v: Option<String>)
        ensures
            opt_view(v) == self@.value(f),
    {
        proof {
            use_type_invariant(self);
        }
        let k = slot(f);
        match &self.values[k] {
            Some(s) => Some(s.clone()),
            None => None,
        }
    }

    /// Whether `--create-collection-if-missing` was given.
    pub fn create_collection_if_missing(&self) -> (b: bool)
        ensures
            b == self@.create_collection_if_missing,
    {
        self.create_collection_if_missing
    }

    /// Whether `--enable-semantic` was given.
    pub fn enable_semantic(&self) -> (b: bool)
        ensures
            b == self@.enable_semantic,
    {
        self.enable_semantic
    }
}

/// What a scan of the command line found.
pub enum ArgScan {
    Help,
    Version,
    Flags(CliFlags),
}

/// An `InvalidInput` error whose message is `msg` followed by the usage line.
fn usage_error(kind: RagloomErrorKind, msg: &str) -> (e: RagloomError)
    ensures
        e.kind == kind,
        e.contexts@.len() == 1,
        e.contexts@[0]@ == with_usage(msg@),
{
    let mut m = owned(msg);
    m.push_str("\n");
    m.push_str(usage_line());
    RagloomError::from_kind(kind).with_context(m)
}

/// Scans the command line `args` (the first is the program name): records
/// the value of each flag, or stops at `--help`, `--version` or a malformed
/// argument, which is an `InvalidInput` error.
pub fn scan_args(args: &[String]) -> (r: Result<ArgScan, RagloomError>)
    ensures
        match scan_command(args@) {
            ScanOutcome::Help => r matches Ok(ArgScan::Help),
            ScanOutcome::Version => r matches Ok(ArgScan::Version),
            ScanOutcome::Flags(v) => r matches Ok(ArgScan::Flags(f)) && f@ == v,
            ScanOutcome::Failed(m) => r matches Err(e) && e.kind == RagloomErrorKind::InvalidInput
                && e.contexts@.len() == 1 && e.contexts@[0]@ == m,
        },
{
    let ghost views = arg_views(args@);
    let mut values: Vec<Option<String>> = Vec::new();
    let mut k: usize = 0;
    while k < FLAG_COUNT
        invariant
            k <= FLAG_COUNT,
            values@.len() == k,
            forall|j: int| 0 <= j < k ==> (#[trigger] values@[j]) is None,
        decreases FLAG_COUNT - k,
    {
        values.push(None);
        k += 1;
    }
    let mut create = false;
    let mut semantic = false;
    proof {
        let st = FlagsView {
            values: values@.map_values(|o: Option<String>| opt_view(o)),
            create_collection_if_missing: create,
            enable_semantic: semantic,
        };
        assert(st.values =~= FlagsView::initial().values);
    }
    let n = args.len();
    let mut i: usize = 1;
    while i < n
        invariant
            1 <= i,
            n == args@.len() == views.len(),
            views == arg_views(args@),
            values@.len() == FLAG_COUNT,
            scan_command(args@) == scan_from(views, i as int, FlagsView {
                values: values@.map_values(|o: Option<String>| opt_view(o)),
                create_collection_if_missing: create,
                enable_semantic: semantic,
            }),
        decreases n - i,
    {
        let ghost st = FlagsView {
            values: values@.map_values(|o: Option<String>| opt_view(o)),
            create_collection_if_missing: create,
            enable_semantic: semantic,
        };
        assert(views[i as int] == args@[i as int]@);
        let (name, inline) = split_arg(args[i].as_str());
        let kind = classify(name.as_str());
        match kind {
            ArgKind::Value(f) => {
                let has_inline = inline.is_some();
                let takes_next = !has_inline && i + 1 < n;
                let value: Option<String> = if has_inline {
                    inline
                } else if takes_next {
                    assert(views[i + 1] == args@[i + 1]@);
                    Some(args[i + 1].clone())
                } else {
                    None
                };
                if f == Flag::CollectionVectorSize && value.is_none() {
                    return Err(usage_error(RagloomErrorKind::InvalidInput, "missing required value: --collection-vector-size"));
                }
                let sl = slot(f);
                values.set(sl, value);
                proof {
                    assert(values@.map_values(|o: Option<String>| opt_view(o)) =~= st.with_value(f, opt_view(value)).values);
                }
                i = if takes_next { i + 2 } else { i + 1 };
            },
            ArgKind::CreateCollection => {
                if inline.is_some() {
                    return Err(usage_error(RagloomErrorKind::InvalidInput, "--create-collection-if-missing does not accept a value"));
                }
                create = true;
                i += 1;
            },
            ArgKind::EnableSemantic => {
                semantic = true;
                i += 1;
            },
            ArgKind::Help => {
                return Ok(ArgScan::Help);
            },
            ArgKind::Version => {
                return Ok(ArgScan::Version);
            },
            ArgKind::Unknown => {
                let mut m = owned("unknown flag: ");
                m.push_str(name.as_str());
                return Err(usage_error(RagloomErrorKind::InvalidInput, m.as_str()));
            },
        }
    }
    let flags = CliFlags { values, create_collection_if_missing: create, enable_semantic: semantic };
    Ok(ArgScan::Flags(flags))
}

// ---------------------------------------------------------------------------
// Resolving the run configuration
// ---------------------------------------------------------------------------

/// A refusal: the error kind and its one context line.
pub type Failure = (RagloomErrorKind, Seq<char>);

/// `e` is the refusal `f`.
pub open spec fn is_failure(e: RagloomError, f: Failure) -> bool {
    &&& e.kind == f.0
    &&& e.contexts@.len() == 1
    &&& e.contexts@[0]@ == f.1
}

/// The first of two optional values that is present.
pub open spec fn first_some(a: Option<Seq<char>>, b: Option<Seq<char>>) -> Option<Seq<char>> {
    if a is Some { a } else { b }
}

/// An optional value, or the default `d`.
pub open spec fn or_text(a: Option<Seq<char>>, d: Seq<char>) -> Seq<char> {
    match a {
        Some(v) => v,
        None => d,
    }
}

/// Why a flag value read as a number was refused, if it was.
pub open spec fn number_error(n: Option<Result<nat, IntParseError>>) -> Option<IntParseError> {
    match n {
        Some(Err(e)) => Some(e),
        _ => None,
    }
}

/// A flag value read as an unsigned number no larger than `limit`.
pub open spec fn number_flag(v: Option<Seq<char>>, limit: nat) -> Option<Result<nat, IntParseError>> {
    match v {
        Some(s) => Some(unsigned_value(s, limit)),
        None => None,
    }
}

pub open spec fn file_root(file: Option<PipelineConfig>) -> Option<Seq<char>> {
    match file {
        Some(c) => Some(c.source.root@),
        None => None,
    }
}

pub open spec fn file_endpoint(file: Option<PipelineConfig>) -> Option<Seq<char>> {
    match file {
        Some(c) => Some(c.embed.endpoint@),
        None => None,
    }
}

pub open spec fn file_qdrant_url(file: Option<PipelineConfig>) -> Option<Seq<char>> {
    match file {
        Some(c) => Some(c.sink.qdrant_url@),
        None => None,
    }
}

pub open spec fn file_collection(file: Option<PipelineConfig>) -> Option<Seq<char>> {
    match file {
        Some(c) => Some(c.sink.collection@),
        None => None,
    }
}

pub open spec fn file_state_path(file: Option<PipelineConfig>) -> Option<Seq<char>> {
    match file {
        Some(c) => Some(c.state.path@),
        None => None,
    }
}

/// Where the runner reads, writes and keeps its state.
pub struct Locations {
    pub dir: Seq<char>,
    pub qdrant_url: Seq<char>,
    pub collection: Seq<char>,
    pub state_path: Seq<char>,
    pub vector_size: Option<nat>,
}

/// The locations: each from its flag, else from the configuration file;
/// the state path defaults to `.ragloom/wal.ndjson` and must not be blank;
/// an explicit collection vector size must be a positive number.
pub open spec fn locations_of(st: FlagsView, file: Option<PipelineConfig>) -> Result<Locations, Failure> {
    let dir = first_some(st.value(Flag::Dir), file_root(file));
    let qdrant = first_some(st.value(Flag::QdrantUrl), file_qdrant_url(file));
    let collection = first_some(st.value(Flag::Collection), file_collection(file));
    let state_path = or_text(
        first_some(st.value(Flag::StatePath), file_state_path(file)),
        crate::config::default_state_path_spec(),
    );
    if dir is None {
        Err((RagloomErrorKind::Config, with_usage("missing required value: --dir or source.root in --config"@)))
    } else if qdrant is None {
        Err((RagloomErrorKind::Config, with_usage("missing required value: --qdrant-url or sink.qdrant_url in --config"@)))
    } else if collection is None {
        Err((RagloomErrorKind::Config, with_usage("missing required value: --collection or sink.collection in --config"@)))
    } else if all_ws(state_path) {
        Err((RagloomErrorKind::Config, with_usage("--state-path or state.path is empty"@)))
    } else {
        match vector_size_of(st) {
            Err(f) => Err(f),
            Ok(vector_size) => Ok(Locations {
                dir: dir->Some_0,
                qdrant_url: qdrant->Some_0,
                collection: collection->Some_0,
                state_path,
                vector_size,
            }),
        }
    }
}

/// The explicit collection vector size, which must be a positive number.
pub open spec fn vector_size_of(st: FlagsView) -> Result<Option<nat>, Failure> {
    let size = number_flag(st.value(Flag::CollectionVectorSize), usize::MAX as nat);
    if number_error(size) is Some {
        Err((RagloomErrorKind::InvalidInput, "--collection-vector-size must be integer: "@ + int_error_text(number_error(size)->Some_0)))
    } else if size == Some(Ok::<nat, IntParseError>(0)) {
        Err((RagloomErrorKind::InvalidInput, with_usage("--collection-vector-size must be positive"@)))
    } else {
        Ok(match size {
            Some(Ok(n)) => Some(n),
            _ => None,
        })
    }
}

/// The embedding backend as values.
pub enum BackendView {
    OpenAi { endpoint: Seq<char>, api_key: Seq<char>, model: Seq<char> },
    Http { url: Seq<char>, model: Seq<char> },
}

/// The embedding backend: `openai` (the default) needs an API key and takes
/// its endpoint from the flag, the configuration file or the public
/// endpoint; `http` needs a URL from the flag or the configuration file.
pub open spec fn backend_of(st: FlagsView, file: Option<PipelineConfig>) -> Result<BackendView, Failure> {
    let b = or_text(st.value(Flag::EmbedBackend), "openai"@);
    if b == "openai"@ {
        match st.value(Flag::OpenaiApiKey) {
            None => Err((RagloomErrorKind::Config, with_usage("missing required flag for openai backend: --openai-api-key"@))),
            Some(key) => Ok(BackendView::OpenAi {
                endpoint: or_text(
                    first_some(st.value(Flag::OpenaiEndpoint), file_endpoint(file)),
                    "https://api.openai.com/v1/embeddings"@,
                ),
                api_key: key,
                model: or_text(st.value(Flag::OpenaiModel), "text-embedding-3-small"@),
            }),
        }
    } else if b == "http"@ {
        match first_some(st.value(Flag::EmbedUrl), file_endpoint(file)) {
            None => Err((RagloomErrorKind::Config, with_usage(
                "missing required value for http backend: --embed-url or embed.endpoint in --config"@,
            ))),
            Some(url) => Ok(BackendView::Http { url, model: or_text(st.value(Flag::EmbedModel), "default"@) }),
        }
    } else {
        Err((RagloomErrorKind::InvalidInput, with_usage("invalid value for --embed-backend: "@ + b + " (expected: openai|http)"@)))
    }
}

/// The chunking settings as values.
pub struct ChunkingView {
    pub strategy: Seq<char>,
    pub metric: Seq<char>,
    pub max: nat,
    pub min: nat,
    pub overlap: nat,
    pub tokenizer: Seq<char>,
    pub mode: Seq<char>,
    pub single: Option<Seq<char>>,
    pub provider: Seq<char>,
    pub percentile: nat,
}

/// The chunking settings, each from its flag or its default, checked in
/// this order.
pub open spec fn chunking_of(st: FlagsView) -> Result<ChunkingView, Failure> {
    let strategy = or_text(st.value(Flag::ChunkerStrategy), "recursive"@);
    let metric = or_text(st.value(Flag::SizeMetric), "chars"@);
    let max = number_flag(st.value(Flag::SizeMax), usize::MAX as nat);
    let min = number_flag(st.value(Flag::SizeMin), usize::MAX as nat);
    let overlap = number_flag(st.value(Flag::SizeOverlap), usize::MAX as nat);
    let tokenizer = or_text(st.value(Flag::Tokenizer), "tiktoken-cl100k"@);
    let mode = or_text(st.value(Flag::ChunkerMode), "router"@);
    let single = st.value(Flag::ChunkerSingle);
    let provider = or_text(st.value(Flag::SemanticProvider), "adapter"@);
    let pct = number_flag(st.value(Flag::SemanticPercentile), 255);
    let pct_value: nat = match pct {
        Some(Ok(p)) => p,
        _ => 95,
    };
    if !(strategy == "recursive"@ || strategy == "legacy"@) {
        Err((RagloomErrorKind::InvalidInput, with_usage("invalid --chunker-strategy: "@ + strategy + " (expected: recursive|legacy)"@)))
    } else if !(metric == "chars"@ || metric == "tokens"@) {
        Err((RagloomErrorKind::InvalidInput, with_usage("invalid --size-metric: "@ + metric + " (expected: chars|tokens)"@)))
    } else if number_error(max) is Some {
        Err((RagloomErrorKind::InvalidInput, "--size-max must be integer: "@ + int_error_text(number_error(max)->Some_0)))
    } else if number_error(min) is Some {
        Err((RagloomErrorKind::InvalidInput, "--size-min must be integer: "@ + int_error_text(number_error(min)->Some_0)))
    } else if number_error(overlap) is Some {
        Err((RagloomErrorKind::InvalidInput, "--size-overlap must be integer: "@ + int_error_text(number_error(overlap)->Some_0)))
    } else if tokenizer != "tiktoken-cl100k"@ {
        Err((RagloomErrorKind::InvalidInput, with_usage("invalid --tokenizer: "@ + tokenizer + " (expected: tiktoken-cl100k)"@)))
    } else if !(mode == "router"@ || mode == "single"@) {
        Err((RagloomErrorKind::InvalidInput, with_usage("invalid --chunker-mode: "@ + mode + " (expected: router|single)"@)))
    } else if mode == "single"@ && single is None {
        Err((RagloomErrorKind::Config, with_usage("--chunker-mode=single requires --chunker-single"@)))
    } else if st.enable_semantic && mode == "single"@ && single != Some("semantic"@) {
        Err((
            RagloomErrorKind::InvalidInput,
            "--enable-semantic is only honored with --chunker-mode=router or --chunker-mode=single with --chunker-single=semantic"@,
        ))
    } else if provider == "fastembed"@ {
        Err((RagloomErrorKind::InvalidInput, "--semantic-provider=fastembed requires the \"fastembed\" Cargo feature"@))
    } else if provider != "adapter"@ {
        Err((RagloomErrorKind::InvalidInput, "invalid --semantic-provider: "@ + provider + " (expected: adapter|fastembed)"@))
    } else if number_error(pct) is Some {
        Err((RagloomErrorKind::InvalidInput, "--semantic-percentile must be 1..=99: "@ + int_error_text(number_error(pct)->Some_0)))
    } else if pct_value < 1 || pct_value > 99 {
        Err((RagloomErrorKind::InvalidInput, "--semantic-percentile must be in 1..=99, got "@ + decimal(pct_value)))
    } else {
        Ok(ChunkingView {
            strategy,
            metric,
            max: match max {
                Some(Ok(v)) => v,
                _ => if metric == "tokens"@ { 512 } else { 2000 },
            },
            min: match min {
                Some(Ok(v)) => v,
                _ => 0,
            },
            overlap: match overlap {
                Some(Ok(v)) => v,
                _ => 0,
            },
            tokenizer,
            mode,
            single,
            provider,
            percentile: pct_value,
        })
    }
}

/// A run configuration as values.
pub struct RunView {
    pub locations: Locations,
    pub backend: BackendView,
    pub chunking: ChunkingView,
    pub create_collection_if_missing: bool,
    pub enable_semantic: bool,
}

/// The run configuration that the recorded flags and the configuration file
/// give, or the first refusal: locations first, then the backend, then the
/// chunking settings.
pub open spec fn resolution(st: FlagsView, file: Option<PipelineConfig>) -> Result<RunView, Failure> {
    match locations_of(st, file) {
        Err(f) => Err(f),
        Ok(l) => match backend_of(st, file) {
            Err(f) => Err(f),
            Ok(b) => match chunking_of(st) {
                Err(f) => Err(f),
                Ok(c) => Ok(RunView {
                    locations: l,
                    backend: b,
                    chunking: c,
                    create_collection_if_missing: st.create_collection_if_missing,
                    enable_semantic: st.enable_semantic,
                }),
            },
        },
    }
}

pub open spec fn backend_view(b: EmbedBackend) -> BackendView {
    match b {
        EmbedBackend::OpenAi { endpoint, api_key, model } => BackendView::OpenAi {
            endpoint: endpoint@,
            api_key: api_key@,
            model: model@,
        },
        EmbedBackend::Http { url, model } => BackendView::Http { url: url@, model: model@ },
    }
}

/// The values of a run configuration.
pub open spec fn run_view(c: RunConfig) -> RunView {
    RunView {
        locations: Locations {
            dir: c.dir@,
            qdrant_url: c.qdrant_url@,
            collection: c.collection@,
            state_path: c.state_path@,
            vector_size: match c.collection_vector_size {
                Some(n) => Some(n as nat),
                None => None,
            },
        },
        backend: backend_view(c.embed_backend),
        chunking: ChunkingView {
            strategy: c.chunker_strategy@,
            metric: c.size_metric@,
            max: c.size_max as nat,
            min: c.size_min as nat,
            overlap: c.size_overlap as nat,
            tokenizer: c.tokenizer@,
            mode: c.chunker_mode@,
            single: opt_view(c.chunker_single),
            provider: c.semantic_provider@,
            percentile: c.semantic_percentile as nat,
        },
        create_collection_if_missing: c.create_collection_if_missing,
        enable_semantic: c.enable_semantic,
    }
}

/// Whether `s` is whitespace only.
fn blank(s: &str) -> (r: bool)
    ensures
        r == all_ws(s@),
{
    is_blank(s)
}

fn first_value(a: Option<String>, b: Option<String>) -> (r: Option<String>)
    ensures
        opt_view(r) == first_some(opt_view(a), opt_view(b)),
{
    if a.is_some() { a } else { b }
}

fn text_or(a: Option<String>, d: &str) -> (r: String)
    ensures
        r@ == or_text(opt_view(a), d@),
{
    match a {
        Some(v) => v,
        None => owned(d),
    }
}

/// The value of a number flag; a refused number is an `InvalidInput` error
/// whose message is `label` followed by the reason.
fn number_value(v: &Option<String>, limit: usize, label: &str) -> (r: Result<Option<usize>, RagloomError>)
    ensures
        match number_flag(opt_view(*v), limit as nat) {
            None => r == Ok::<Option<usize>, RagloomError>(None),
            Some(Ok(n)) => r == Ok::<Option<usize>, RagloomError>(Some(n as usize)),
            Some(Err(e)) => r matches Err(x) && is_failure(x, (RagloomErrorKind::InvalidInput, label@ + int_error_text(e))),
        },
        r matches Ok(Some(n)) ==> n <= limit,
        number_flag(opt_view(*v), limit as nat) matches Some(Ok(n)) ==> n <= limit,
{
    if v.is_some() {
        proof {
            lemma_unsigned_bounded(v->Some_0@, limit as nat);
        }
    }
    match v {
        None => Ok(None),
        Some(s) => match parse_unsigned(s.as_str(), limit) {
            Ok(n) => Ok(Some(n)),
            Err(e) => {
                let mut m = owned(label);
                push_int_error(&mut m, e);
                Err(RagloomError::from_kind(RagloomErrorKind::InvalidInput).with_context(m))
            },
        },
    }
}

/// Resolves the explicit collection vector size (see [`vector_size_of`]).
fn resolve_vector_size(flags: &CliFlags) -> (r: Result<Option<usize>, RagloomError>)
    ensures
        match vector_size_of(flags@) {
            Ok(Some(n)) => r == Ok::<Option<usize>, RagloomError>(Some(n as usize)) && n <= usize::MAX,
            Ok(None) => r == Ok::<Option<usize>, RagloomError>(None),
            Err(f) => r matches Err(e) && is_failure(e, f),
        },
{
    let raw_size = flags.value(Flag::CollectionVectorSize);
    let size = match number_value(&raw_size, usize::MAX, "--collection-vector-size must be integer: ") {
        Ok(n) => n,
        Err(e) => {
            return Err(e);
        },
    };
    match size {
        Some(n) => {
            if n == 0 {
                return Err(usage_error(RagloomErrorKind::InvalidInput, "--collection-vector-size must be positive"));
            }
        },
        None => {},
    }
    Ok(size)
}

/// Resolves the locations (see [`locations_of`]).
fn resolve_locations(flags: &CliFlags, file: &Option<PipelineConfig>) -> (r: Result<
    (String, String, String, String, Option<usize>),
    RagloomError,
>)
    ensures
        match locations_of(flags@, *file) {
            Ok(l) => r matches Ok(t) && t.0@ == l.dir && t.1@ == l.qdrant_url && t.2@ == l.collection
                && t.3@ == l.state_path && match t.4 {
                Some(n) => l.vector_size == Some(n as nat),
                None => l.vector_size is None,
            },
            Err(f) => r matches Err(e) && is_failure(e, f),
        },
{
    let ghost st = flags@;
    let f_root = match file {
        Some(c) => Some(c.source.root.clone()),
        None => None,
    };
    let f_url = match file {
        Some(c) => Some(c.sink.qdrant_url.clone()),
        None => None,
    };
    let f_coll = match file {
        Some(c) => Some(c.sink.collection.clone()),
        None => None,
    };
    let f_state = match file {
        Some(c) => Some(c.state.path.clone()),
        None => None,
    };
    assert(opt_view(f_root) == file_root(*file));
    assert(opt_view(f_url) == file_qdrant_url(*file));
    assert(opt_view(f_coll) == file_collection(*file));
    assert(opt_view(f_state) == file_state_path(*file));
    let dir = first_value(flags.value(Flag::Dir), f_root);
    let qdrant = first_value(flags.value(Flag::QdrantUrl), f_url);
    let collection = first_value(flags.value(Flag::Collection), f_coll);
    let state_path = text_or(first_value(flags.value(Flag::StatePath), f_state), ".ragloom/wal.ndjson");
    let dir = match dir {
        Some(d) => d,
        None => {
            return Err(usage_error(RagloomErrorKind::Config, "missing required value: --dir or source.root in --config"));
        },
    };
    let qdrant = match qdrant {
        Some(q) => q,
        None => {
            return Err(usage_error(
                RagloomErrorKind::Config,
                "missing required value: --qdrant-url or sink.qdrant_url in --config",
            ));
        },
    };
    let collection = match collection {
        Some(c) => c,
        None => {
            return Err(usage_error(
                RagloomErrorKind::Config,
                "missing required value: --collection or sink.collection in --config",
            ));
        },
    };
    if blank(state_path.as_str()) {
        return Err(usage_error(RagloomErrorKind::Config, "--state-path or state.path is empty"));
    }
    let size = match resolve_vector_size(flags) {
        Ok(n) => n,
        Err(e) => {
            return Err(e);
        },
    };
    Ok((dir, qdrant, collection, state_path, size))
}

/// Resolves the embedding backend (see [`backend_of`]).
fn resolve_backend(flags: &CliFlags, file: &Option<PipelineConfig>) -> (r: Result<EmbedBackend, RagloomError>)
    ensures
        match backend_of(flags@, *file) {
            Ok(b) => r matches Ok(x) && backend_view(x) == b,
            Err(f) => r matches Err(e) && is_failure(e, f),
        },
{
    let f_endpoint = match file {
        Some(c) => Some(c.embed.endpoint.clone()),
        None => None,
    };
    let backend = text_or(flags.value(Flag::EmbedBackend), "openai");
    if str_eq(backend.as_str(), "openai") {
        let api_key = match flags.value(Flag::OpenaiApiKey) {
            Some(k) => k,
            None => {
                return Err(usage_error(
                    RagloomErrorKind::Config,
                    "missing required flag for openai backend: --openai-api-key",
                ));
            },
        };
        let endpoint = text_or(
            first_value(flags.value(Flag::OpenaiEndpoint), f_endpoint),
            "https://api.openai.com/v1/embeddings",
        );
        let model = text_or(flags.value(Flag::OpenaiModel), "text-embedding-3-small");
        Ok(EmbedBackend::OpenAi { endpoint, api_key, model })
    } else if str_eq(backend.as_str(), "http") {
        let url = match first_value(flags.value(Flag::EmbedUrl), f_endpoint) {
            Some(u) => u,
            None => {
                return Err(usage_error(
                    RagloomErrorKind::Config,
                    "missing required value for http backend: --embed-url or embed.endpoint in --config",
                ));
            },
        };
        let model = text_or(flags.value(Flag::EmbedModel), "default");
        Ok(EmbedBackend::Http { url, model })
    } else {
        let mut m = owned("invalid value for --embed-backend: ");
        m.push_str(backend.as_str());
        m.push_str(" (expected: openai|http)");
        Err(usage_error(RagloomErrorKind::InvalidInput, m.as_str()))
    }
}

/// The chunking settings of a run.
struct Chunking {
    strategy: String,
    metric: String,
    max: usize,
    min: usize,
    overlap: usize,
    tokenizer: String,
    mode: String,
    single: Option<String>,
    provider: String,
    percentile: u8,
}

spec fn chunking_view(c: Chunking) -> ChunkingView {
    ChunkingView {
        strategy: c.strategy@,
        metric: c.metric@,
        max: c.max as nat,
        min: c.min as nat,
        overlap: c.overlap as nat,
        tokenizer: c.tokenizer@,
        mode: c.mode@,
        single: opt_view(c.single),
        provider: c.provider@,
        percentile: c.percentile as nat,
    }
}

/// Resolves the chunking settings (see [`chunking_of`]).
fn resolve_chunking(flags: &CliFlags) -> (r: Result<Chunking, RagloomError>)
    ensures
        match chunking_of(flags@) {
            Ok(c) => r matches Ok(x) && chunking_view(x) == c,
            Err(f) => r matches Err(e) && is_failure(e, f),
        },
{
    let strategy = text_or(flags.value(Flag::ChunkerStrategy), "recursive");
    let metric = text_or(flags.value(Flag::SizeMetric), "chars");
    let tokenizer = text_or(flags.value(Flag::Tokenizer), "tiktoken-cl100k");
    let mode = text_or(flags.value(Flag::ChunkerMode), "router");
    let single = flags.value(Flag::ChunkerSingle);
    let provider = text_or(flags.value(Flag::SemanticProvider), "adapter");
    if !(str_eq(strategy.as_str(), "recursive") || str_eq(strategy.as_str(), "legacy")) {
        let mut m = owned("invalid --chunker-strategy: ");
        m.push_str(strategy.as_str());
        m.push_str(" (expected: recursive|legacy)");
        return Err(usage_error(RagloomErrorKind::InvalidInput, m.as_str()));
    }
    let tokens = str_eq(metric.as_str(), "tokens");
    if !(str_eq(metric.as_str(), "chars") || tokens) {
        let mut m = owned("invalid --size-metric: ");
        m.push_str(metric.as_str());
        m.push_str(" (expected: chars|tokens)");
        return Err(usage_error(RagloomErrorKind::InvalidInput, m.as_str()));
    }
    let max = match number_value(&flags.value(Flag::SizeMax), usize::MAX, "--size-max must be integer: ") {
        Ok(n) => n,
        Err(e) => {
            return Err(e);
        },
    };
    let min = match number_value(&flags.value(Flag::SizeMin), usize::MAX, "--size-min must be integer: ") {
        Ok(n) => n,
        Err(e) => {
            return Err(e);
        },
    };
    let overlap = match number_value(&flags.value(Flag::SizeOverlap), usize::MAX, "--size-overlap must be integer: ") {
        Ok(n) => n,
        Err(e) => {
            return Err(e);
        },
    };
    if !str_eq(tokenizer.as_str(), "tiktoken-cl100k") {
        let mut m = owned("invalid --tokenizer: ");
        m.push_str(tokenizer.as_str());
        m.push_str(" (expected: tiktoken-cl100k)");
        return Err(usage_error(RagloomErrorKind::InvalidInput, m.as_str()));
    }
    let is_single = str_eq(mode.as_str(), "single");
    if !(str_eq(mode.as_str(), "router") || is_single) {
        let mut m = owned("invalid --chunker-mode: ");
        m.push_str(mode.as_str());
        m.push_str(" (expected: router|single)");
        return Err(usage_error(RagloomErrorKind::InvalidInput, m.as_str()));
    }
    if is_single && single.is_none() {
        return Err(usage_error(RagloomErrorKind::Config, "--chunker-mode=single requires --chunker-single"));
    }
    let single_semantic = match &single {
        Some(k) => str_eq(k.as_str(), "semantic"),
        None => false,
    };
    if flags.enable_semantic() && is_single && !single_semantic {
        return Err(RagloomError::from_kind(RagloomErrorKind::InvalidInput).with_context(owned(
            "--enable-semantic is only honored with --chunker-mode=router or --chunker-mode=single with --chunker-single=semantic",
        )));
    }
    if str_eq(provider.as_str(), "fastembed") {
        return Err(RagloomError::from_kind(RagloomErrorKind::InvalidInput).with_context(owned(
            "--semantic-provider=fastembed requires the \"fastembed\" Cargo feature",
        )));
    }
    if !str_eq(provider.as_str(), "adapter") {
        let mut m = owned("invalid --semantic-provider: ");
        m.push_str(provider.as_str());
        m.push_str(" (expected: adapter|fastembed)");
        return Err(RagloomError::from_kind(RagloomErrorKind::InvalidInput).with_context(m));
    }
    let pct = match number_value(&flags.value(Flag::SemanticPercentile), 255, "--semantic-percentile must be 1..=99: ") {
        Ok(n) => n,
        Err(e) => {
            return Err(e);
        },
    };
    let pct: usize = match pct {
        Some(p) => p,
        None => 95,
    };
    if pct < 1 || pct > 99 {
        let mut m = owned("--semantic-percentile must be in 1..=99, got ");
        push_decimal(&mut m, pct as u64);
        return Err(RagloomError::from_kind(RagloomErrorKind::InvalidInput).with_context(m));
    }
    let max = match max {
        Some(v) => v,
        None => if tokens { 512 } else { 2000 },
    };
    let min = match min {
        Some(v) => v,
        None => 0,
    };
    let overlap = match overlap {
        Some(v) => v,
        None => 0,
    };
    Ok(Chunking { strategy, metric, max, min, overlap, tokenizer, mode, single, provider, percentile: pct as u8 })
}

/// Combines the recorded flags, the configuration file named by `--config`
/// (already read and checked by the caller, `None` when no file was named)
/// and the defaults into a run configuration; see [`resolution`] for each
/// setting and refusal.
pub fn resolve_run_config(flags: &CliFlags, file_config: &Option<PipelineConfig>) -> (r: Result<RunConfig, RagloomError>)
    ensures
        match resolution(flags@, *file_config) {
            Ok(v) => r matches Ok(c) && run_view(c) == v,
            Err(f) => r matches Err(e) && is_failure(e, f),
        },
{
    let (dir, qdrant_url, collection, state_path, collection_vector_size) = match resolve_locations(flags, file_config) {
        Ok(t) => t,
        Err(e) => {
            return Err(e);
        },
    };
    let embed_backend = match resolve_backend(flags, file_config) {
        Ok(b) => b,
        Err(e) => {
            return Err(e);
        },
    };
    let c = match resolve_chunking(flags) {
        Ok(c) => c,
        Err(e) => {
            return Err(e);
        },
    };
    Ok(RunConfig {
        dir,
        embed_backend,
        qdrant_url,
        collection,
        state_path,
        create_collection_if_missing: flags.create_collection_if_missing(),
        collection_vector_size,
        chunker_strategy: c.strategy,
        size_metric: c.metric,
        size_max: c.max,
        size_min: c.min,
        size_overlap: c.overlap,
        tokenizer: c.tokenizer,
        chunker_mode: c.mode,
        chunker_single: c.single,
        enable_semantic: flags.enable_semantic(),
        semantic_provider: c.provider,
        semantic_percentile: c.percentile,
    })
}

/// Parses the command line `args` (the first is the program name) into a
/// command: `--help` and `--version` end parsing at once; otherwise the
/// flags are resolved against `file_config`, the configuration file named
/// by `--config` (read and checked by the caller, `None` when no file was
/// named).
pub fn parse_args(args: &[String], file_config: Option<PipelineConfig>) -> (r: Result<ParsedCommand, RagloomError>)
    ensures
        match scan_command(args@) {
            ScanOutcome::Help => r matches Ok(ParsedCommand::Help),
            ScanOutcome::Version => r matches Ok(ParsedCommand::Version),
            ScanOutcome::Failed(m) => r matches Err(e) && is_failure(e, (RagloomErrorKind::InvalidInput, m)),
            ScanOutcome::Flags(v) => match resolution(v, file_config) {
                Ok(rv) => r matches Ok(ParsedCommand::Run(c)) && run_view(*c) == rv,
                Err(f) => r matches Err(e) && is_failure(e, f),
            },
        },
        r matches Ok(ParsedCommand::Run(c)) ==> crate::cli::run_config_validated(*c),
{
    match scan_args(args) {
        Err(e) => Err(e),
        Ok(ArgScan::Help) => Ok(ParsedCommand::Help),
        Ok(ArgScan::Version) => Ok(ParsedCommand::Version),
        Ok(ArgScan::Flags(flags)) => match resolve_run_config(&flags, &file_config) {
            Ok(cfg) => {
                proof {
                    reveal_strlit("single");
                    reveal_strlit("router");
                    reveal_strlit("chars");
                    reveal_strlit("tokens");
                }
                Ok(ParsedCommand::Run(Box::new(cfg)))
            },
            Err(e) => Err(e),
        },
    }
}

/// The embedding endpoint follows the same precedence: with the `http`
/// backend the URL is the `--embed-url` flag when given, whatever the
/// configuration file holds, else the file's `embed.endpoint`; with the
/// `openai` backend the endpoint is `--openai-endpoint` when given, else the
/// file's `embed.endpoint`.
pub proof fn law_embedding_flags_take_precedence(st: FlagsView, file: Option<PipelineConfig>)
    ensures
        backend_of(st, file) matches Ok(BackendView::Http { url, .. }) ==> (st.value(Flag::EmbedUrl) matches Some(u) ==> url == u)
            && (st.value(Flag::EmbedUrl) is None ==> (file matches Some(c) ==> url == c.embed.endpoint@)),
        backend_of(st, file) matches Ok(BackendView::OpenAi { endpoint, .. }) ==> (st.value(Flag::OpenaiEndpoint) matches Some(u)
            ==> endpoint == u) && (st.value(Flag::OpenaiEndpoint) is None ==> (file matches Some(c) ==> endpoint
            == c.embed.endpoint@)),
{
}

/// The configuration file is merged with the command line and the flags
/// take precedence: a location given by a flag is used as given; one left
/// out is taken from the configuration file when there is one.
pub proof fn law_flags_take_precedence(st: FlagsView, file: Option<PipelineConfig>)
    requires
        resolution(st, file) is Ok,
    ensures
        ({
            let l = resolution(st, file)->Ok_0.locations;
            &&& (st.value(Flag::Dir) matches Some(d) ==> l.dir == d)
            &&& (st.value(Flag::QdrantUrl) matches Some(q) ==> l.qdrant_url == q)
            &&& (st.value(Flag::Collection) matches Some(c) ==> l.collection == c)
            &&& (st.value(Flag::StatePath) matches Some(p) ==> l.state_path == p)
            &&& (st.value(Flag::Dir) is None ==> (file matches Some(c) ==> l.dir == c.source.root@))
            &&& (st.value(Flag::QdrantUrl) is None ==> (file matches Some(c) ==> l.qdrant_url == c.sink.qdrant_url@))
            &&& (st.value(Flag::Collection) is None ==> (file matches Some(c) ==> l.collection == c.sink.collection@))
            &&& (st.value(Flag::StatePath) is None ==> (file matches Some(c) ==> l.state_path == c.state.path@))
        }),
{
}

/// Scanning from position `i` depends on the arguments from `i` on only.
pub proof fn lemma_scan_from_suffix(args: Seq<Seq<char>>, i: int, st: FlagsView)
    requires
        0 <= i <= args.len(),
    ensures
        scan_from(args, i, st) == scan_from(args.skip(i), 0, st),
    decreases args.len() - i,
{
    let t = args.skip(i);
    assert(t.len() == args.len() - i);
    if i < args.len() {
        assert(t[0] == args[i]);
        assert(split_flag(t[0]) == split_flag(args[i]));
        if i + 1 < args.len() {
            assert(t[1] == args[i + 1]);
        }
        let name = split_flag(args[i]).0;
        let inline = split_flag(args[i]).1;
        let takes_next = inline is None && i + 1 < args.len();
        let after = if takes_next { i + 2 } else { i + 1 };
        assert(t.skip(after - i) =~= args.skip(after));
        assert(t.skip(1) =~= args.skip(i + 1));
        assert forall|s2: FlagsView| #[trigger] scan_from(args, after, s2) == scan_from(t, after - i, s2) by {
            lemma_scan_from_suffix(args, after, s2);
            lemma_scan_from_suffix(t, after - i, s2);
        }
        assert forall|s2: FlagsView| #[trigger] scan_from(args, i + 1, s2) == scan_from(t, 1, s2) by {
            lemma_scan_from_suffix(args, i + 1, s2);
            lemma_scan_from_suffix(t, 1, s2);
        }
        let value = if inline is Some { inline } else if takes_next { Some(args[i + 1]) } else { None };
        match arg_kind(name) {
            ArgKind::Value(f) => {
                assert(scan_from(args, after, st.with_value(f, value)) == scan_from(t, after - i, st.with_value(f, value)));
            },
            ArgKind::CreateCollection => {
                assert(scan_from(args, i + 1, FlagsView { create_collection_if_missing: true, ..st }) == scan_from(
                    t,
                    1,
                    FlagsView { create_collection_if_missing: true, ..st },
                ));
            },
            ArgKind::EnableSemantic => {
                assert(scan_from(args, i + 1, FlagsView { enable_semantic: true, ..st }) == scan_from(
                    t,
                    1,
                    FlagsView { enable_semantic: true, ..st },
                ));
            },
            _ => {},
        }
    } else {
        assert(t.len() == 0);
    }
}

proof fn lemma_first_eq_prefix(a: Seq<char>, b: Seq<char>)
    requires
        first_eq(a) is Some,
    ensures
        first_eq(a + b) == first_eq(a),
    decreases a.len(),
{
    if a[0] != '=' {
        assert((a + b).drop_first() =~= a.drop_first() + b);
        lemma_first_eq_prefix(a.drop_first(), b);
    }
}

/// A value of `--collection-vector-size` reads the same given inline
/// (`--collection-vector-size=v`) or as the next argument: from that flag on,
/// scanning comes to the same outcome either way.
pub proof fn law_vector_size_inline_or_separate(v: Seq<char>, rest: Seq<Seq<char>>, st: FlagsView)
    ensures
        scan_from(seq!["--collection-vector-size"@, v] + rest, 0, st) == scan_from(
            seq!["--collection-vector-size="@ + v] + rest,
            0,
            st,
        ),
{
    let name = "--collection-vector-size"@;
    let lead = "--collection-vector-size="@;
    let sep = seq![name, v] + rest;
    let inl = seq![lead + v] + rest;
    reveal_strlit("--collection-vector-size");
    reveal_strlit("--collection-vector-size=");
    reveal_strlit("--config");
    assert("--config"@.len() == 8);
    reveal_strlit("--dir");
    assert("--dir"@.len() == 5);
    reveal_strlit("--embed-backend");
    assert("--embed-backend"@.len() == 15);
    reveal_strlit("--embed-url");
    assert("--embed-url"@.len() == 11);
    reveal_strlit("--embed-model");
    assert("--embed-model"@.len() == 13);
    reveal_strlit("--openai-endpoint");
    assert("--openai-endpoint"@.len() == 17);
    reveal_strlit("--openai-api-key");
    assert("--openai-api-key"@.len() == 16);
    reveal_strlit("--openai-model");
    assert("--openai-model"@.len() == 14);
    reveal_strlit("--qdrant-url");
    assert("--qdrant-url"@.len() == 12);
    reveal_strlit("--collection");
    assert("--collection"@.len() == 12);
    reveal_strlit("--state-path");
    assert("--state-path"@.len() == 12);
    reveal_strlit("--create-collection-if-missing");
    assert("--create-collection-if-missing"@.len() == 30);
    assert(name.len() == 24);
    assert(lead.len() == 25);
    assert(name[0] == '-' && lead[0] == '-');
    assert(name[1] == '-' && lead[1] == '-');
    assert(name[2] == 'c' && lead[2] == 'c');
    assert(name[3] == 'o' && lead[3] == 'o');
    assert(name[4] == 'l' && lead[4] == 'l');
    assert(name[5] == 'l' && lead[5] == 'l');
    assert(name[6] == 'e' && lead[6] == 'e');
    assert(name[7] == 'c' && lead[7] == 'c');
    assert(name[8] == 't' && lead[8] == 't');
    assert(name[9] == 'i' && lead[9] == 'i');
    assert(name[10] == 'o' && lead[10] == 'o');
    assert(name[11] == 'n' && lead[11] == 'n');
    assert(name[12] == '-' && lead[12] == '-');
    assert(name[13] == 'v' && lead[13] == 'v');
    assert(name[14] == 'e' && lead[14] == 'e');
    assert(name[15] == 'c' && lead[15] == 'c');
    assert(name[16] == 't' && lead[16] == 't');
    assert(name[17] == 'o' && lead[17] == 'o');
    assert(name[18] == 'r' && lead[18] == 'r');
    assert(name[19] == '-' && lead[19] == '-');
    assert(name[20] == 's' && lead[20] == 's');
    assert(name[21] == 'i' && lead[21] == 'i');
    assert(name[22] == 'z' && lead[22] == 'z');
    assert(name[23] == 'e' && lead[23] == 'e');
    assert(lead[24] == '=');
    assert forall|j: int| 0 <= j < 24 implies name[j] != '=' && lead[j] != '=' && lead[j] == name[j] by {
        assert(j == 0 || j == 1 || j == 2 || j == 3 || j == 4 || j == 5 || j == 6 || j == 7 || j == 8 || j == 9 || j == 10 || j == 11 || j == 12 || j == 13 || j == 14 || j == 15 || j == 16 || j == 17 || j == 18 || j == 19 || j == 20 || j == 21 || j == 22 || j == 23);
    }
    lemma_first_eq(name, 24);
    lemma_first_eq(lead, 24);
    assert(lead.take(24) =~= name);
    lemma_first_eq_prefix(lead, v);
    assert((lead + v).take(24) =~= lead.take(24));
    assert((lead + v).skip(25) =~= v);
    assert(sep[0] == name);
    assert(sep[1] == v);
    assert(inl[0] == lead + v);
    assert(split_flag(sep[0]) == (name, None::<Seq<char>>));
    assert(split_flag(inl[0]) == (name, Some(v)));
    assert(arg_kind(name) == ArgKind::Value(Flag::CollectionVectorSize));
    let st2 = st.with_value(Flag::CollectionVectorSize, Some(v));
    lemma_scan_from_suffix(sep, 2, st2);
    lemma_scan_from_suffix(inl, 1, st2);
    assert(sep.skip(2) =~= rest);
    assert(inl.skip(1) =~= rest);
}

/// The flags recorded when scanning from position `i` with `st` comes to
/// position `p` (an argument boundary the scan stops at), `None` when the
/// scan ends, fails or steps over `p` first.
pub open spec fn scan_reaches(args: Seq<Seq<char>>, i: int, st: FlagsView, p: int) -> Option<FlagsView>
    decreases args.len() - i,
{
    if i == p {
        Some(st)
    } else if i < 0 || i > p || i >= args.len() {
        None
    } else {
        let name = split_flag(args[i]).0;
        let inline = split_flag(args[i]).1;
        let takes_next = inline is None && i + 1 < args.len();
        let value = if inline is Some { inline } else if takes_next { Some(args[i + 1]) } else { None };
        let after = if takes_next { i + 2 } else { i + 1 };
        match arg_kind(name) {
            ArgKind::Value(f) => {
                if f == Flag::CollectionVectorSize && value is None {
                    None
                } else {
                    scan_reaches(args, after, st.with_value(f, value), p)
                }
            },
            ArgKind::CreateCollection => {
                if inline is Some {
                    None
                } else {
                    scan_reaches(args, i + 1, FlagsView { create_collection_if_missing: true, ..st }, p)
                }
            },
            ArgKind::EnableSemantic => scan_reaches(args, i + 1, FlagsView { enable_semantic: true, ..st }, p),
            _ => None,
        }
    }
}

/// A scan that comes to position `p` goes on from there as a scan started
/// at `p`.
pub proof fn lemma_scan_reaches(args: Seq<Seq<char>>, i: int, st: FlagsView, p: int)
    requires
        scan_reaches(args, i, st, p) is Some,
    ensures
        scan_from(args, i, st) == scan_from(args, p, scan_reaches(args, i, st, p)->Some_0),
    decreases args.len() - i,
{
    if i != p {
        let name = split_flag(args[i]).0;
        let inline = split_flag(args[i]).1;
        let takes_next = inline is None && i + 1 < args.len();
        let value = if inline is Some { inline } else if takes_next { Some(args[i + 1]) } else { None };
        let after = if takes_next { i + 2 } else { i + 1 };
        match arg_kind(name) {
            ArgKind::Value(f) => {
                lemma_scan_reaches(args, after, st.with_value(f, value), p);
            },
            ArgKind::CreateCollection => {
                lemma_scan_reaches(args, i + 1, FlagsView { create_collection_if_missing: true, ..st }, p);
            },
            ArgKind::EnableSemantic => {
                lemma_scan_reaches(args, i + 1, FlagsView { enable_semantic: true, ..st }, p);
            },
            _ => {},
        }
    }
}

/// Whether a scan comes to position `p = pre.len()` depends on the
/// arguments before `p` only, as long as something follows them.
proof fn lemma_scan_reaches_prefix(pre: Seq<Seq<char>>, x: Seq<Seq<char>>, y: Seq<Seq<char>>, i: int, st: FlagsView)
    requires
        x.len() > 0,
        y.len() > 0,
        0 <= i <= pre.len(),
    ensures
        scan_reaches(pre + x, i, st, pre.len() as int) == scan_reaches(pre + y, i, st, pre.len() as int),
    decreases pre.len() - i,
{
    let a = pre + x;
    let b = pre + y;
    let p = pre.len() as int;
    if i < p {
        assert(a[i] == pre[i] && b[i] == pre[i]);
        if i + 1 < p {
            assert(a[i + 1] == pre[i + 1] && b[i + 1] == pre[i + 1]);
        }
        let name = split_flag(pre[i]).0;
        let inline = split_flag(pre[i]).1;
        let takes_next = inline is None && i + 1 < a.len();
        let after = if takes_next { i + 2 } else { i + 1 };
        assert forall|s2: FlagsView| #[trigger] scan_reaches(a, i + 1, s2, p) == scan_reaches(b, i + 1, s2, p) by {
            lemma_scan_reaches_prefix(pre, x, y, i + 1, s2);
        }
        assert(a.len() > p && b.len() > p);
        if takes_next && i + 2 <= p {
            assert forall|s2: FlagsView| #[trigger] scan_reaches(a, i + 2, s2, p) == scan_reaches(b, i + 2, s2, p) by {
                lemma_scan_reaches_prefix(pre, x, y, i + 2, s2);
            }
        }
        match arg_kind(name) {
            ArgKind::Value(f) => {
                if takes_next {
                    if i + 2 <= p {
                        assert(scan_reaches(a, i + 2, st.with_value(f, Some(a[i + 1])), p) == scan_reaches(
                            b,
                            i + 2,
                            st.with_value(f, Some(b[i + 1])),
                            p,
                        ));
                    } else {
                        assert(scan_reaches(a, i + 2, st.with_value(f, Some(a[i + 1])), p) is None);
                        assert(scan_reaches(b, i + 2, st.with_value(f, Some(b[i + 1])), p) is None);
                    }
                } else {
                    assert(scan_reaches(a, i + 1, st.with_value(f, inline), p) == scan_reaches(b, i + 1, st.with_value(f, inline), p));
                }
            },
            ArgKind::CreateCollection => {
                let s2 = FlagsView { create_collection_if_missing: true, ..st };
                lemma_scan_reaches_prefix(pre, x, y, i + 1, s2);
                assert(scan_reaches(a, i, st, p) == scan_reaches(b, i, st, p));
            },
            ArgKind::EnableSemantic => {
                let s2 = FlagsView { enable_semantic: true, ..st };
                lemma_scan_reaches_prefix(pre, x, y, i + 1, s2);
                assert(scan_reaches(a, i, st, p) == scan_reaches(b, i, st, p));
            },
            _ => {
                assert(scan_reaches(a, i, st, p) == scan_reaches(b, i, st, p));
            },
        }
        assert(scan_reaches(a, i, st, p) == scan_reaches(b, i, st, p));
    }
}

/// A value of `--collection-vector-size` reads the same inline or as the
/// next argument on a whole command line: when the scan of
/// `pre, --collection-vector-size, v, rest` comes to the flag, the scan of
/// `pre, --collection-vector-size=v, rest` comes to it with the same flags,
/// and both command lines scan to the same outcome.
pub proof fn law_vector_size_forms_agree_on_command_lines(pre: Seq<Seq<char>>, v: Seq<char>, rest: Seq<Seq<char>>)
    requires
        pre.len() >= 1,
        scan_reaches(pre + (seq!["--collection-vector-size"@, v] + rest), 1, FlagsView::initial(), pre.len() as int) is Some,
    ensures
        scan_from(pre + (seq!["--collection-vector-size"@, v] + rest), 1, FlagsView::initial()) == scan_from(
            pre + (seq!["--collection-vector-size="@ + v] + rest),
            1,
            FlagsView::initial(),
        ),
{
    let x = seq!["--collection-vector-size"@, v] + rest;
    let y = seq!["--collection-vector-size="@ + v] + rest;
    let p = pre.len() as int;
    lemma_scan_reaches_prefix(pre, x, y, 1, FlagsView::initial());
    let st = scan_reaches(pre + x, 1, FlagsView::initial(), p)->Some_0;
    lemma_scan_reaches(pre + x, 1, FlagsView::initial(), p);
    lemma_scan_reaches(pre + y, 1, FlagsView::initial(), p);
    lemma_scan_from_suffix(pre + x, p, st);
    lemma_scan_from_suffix(pre + y, p, st);
    assert((pre + x).skip(p) =~= x);
    assert((pre + y).skip(p) =~= y);
    law_vector_size_inline_or_separate(v, rest, st);
}

} // verus!
