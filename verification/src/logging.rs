//! Logging filter: levels, directives, the `module=level` specification
//! grammar, and the routing decision (`enabled`). The logger decides here
//! which lines are emitted and to which backend; the actual writes are done
//! by the process around the library.

use vstd::prelude::*;

verus! {

/// Severity of a single log line, most severe first.
#[derive(Clone, Copy, Debug, PartialEq, Eq, Structural, Hash)]
pub enum LogLevel {
    /// Designates very serious errors.
    Error,
    /// Designates hazardous situations.
    Warn,
    /// Designates useful information.
    Info,
    /// Designates lower priority information.
    Debug,
    /// Designates very low priority, often extremely verbose, information.
    Trace,
}

/// Threshold of a directive: levels at or below it pass. `Off` passes none.
#[derive(Clone, Copy, Debug, PartialEq, Eq, Structural, Hash)]
pub enum LogLevelFilter {
    Off,
    Error,
    Warn,
    Info,
    Debug,
    Trace,
}

impl LogLevel {
    /// Numeric rank; lines up with `LogLevelFilter` so that a level passes a
    /// filter exactly when its rank is at most the filter's rank.
    pub open spec fn rank(self) -> int {
        match self {
            LogLevel::Error => 1,
            LogLevel::Warn => 2,
            LogLevel::Info => 3,
            LogLevel::Debug => 4,
            LogLevel::Trace => 5,
        }
    }

    /// The level of the given rank, if any.
    pub fn from_usize(u: usize) -> (r: Option<LogLevel>)
        ensures
            match r {
                Some(l) => l.rank() == u,
                None => u == 0 || u > 5,
            },
    {
        match u {
            1 => Some(LogLevel::Error),
            2 => Some(LogLevel::Warn),
            3 => Some(LogLevel::Info),
            4 => Some(LogLevel::Debug),
            5 => Some(LogLevel::Trace),
            _ => None,
        }
    }

    /// Returns the most verbose logging level.
    pub fn max() -> (r: LogLevel)
        ensures
            r == LogLevel::Trace,
            forall|l: LogLevel| l.rank() <= r.rank(),
    {
        LogLevel::Trace
    }

    /// Converts the `LogLevel` to the equivalent `LogLevelFilter`.
    pub fn to_log_level_filter(&self) -> (r: LogLevelFilter)
        ensures
            r.rank() == self.rank(),
    {
        match self {
            LogLevel::Error => LogLevelFilter::Error,
            LogLevel::Warn => LogLevelFilter::Warn,
            LogLevel::Info => LogLevelFilter::Info,
            LogLevel::Debug => LogLevelFilter::Debug,
            LogLevel::Trace => LogLevelFilter::Trace,
        }
    }
}

impl LogLevelFilter {
    /// Numeric rank; `Off` is below every level's rank.
    pub open spec fn rank(self) -> int {
        match self {
            LogLevelFilter::Off => 0,
            LogLevelFilter::Error => 1,
            LogLevelFilter::Warn => 2,
            LogLevelFilter::Info => 3,
            LogLevelFilter::Debug => 4,
            LogLevelFilter::Trace => 5,
        }
    }

    /// The filter of the given rank, if any.
    pub fn from_usize(u: usize) -> (r: Option<LogLevelFilter>)
        ensures
            match r {
                Some(f) => f.rank() == u,
                None => u > 5,
            },
    {
        match u {
            0 => Some(LogLevelFilter::Off),
            1 => Some(LogLevelFilter::Error),
            2 => Some(LogLevelFilter::Warn),
            3 => Some(LogLevelFilter::Info),
            4 => Some(LogLevelFilter::Debug),
            5 => Some(LogLevelFilter::Trace),
            _ => None,
        }
    }

    /// Returns the most verbose logging level filter.
    pub fn max() -> (r: LogLevelFilter)
        ensures
            r == LogLevelFilter::Trace,
            forall|f: LogLevelFilter| f.rank() <= r.rank(),
    {
        LogLevelFilter::Trace
    }

    /// Converts `self` to the equivalent `LogLevel`.
    ///
    /// Returns `None` if `self` is `LogLevelFilter::Off`.
    pub fn to_log_level(&self) -> (r: Option<LogLevel>)
        ensures
            match r {
                Some(l) => l.rank() == self.rank(),
                None => self is Off,
            },
    {
        match self {
            LogLevelFilter::Off => None,
            LogLevelFilter::Error => Some(LogLevel::Error),
            LogLevelFilter::Warn => Some(LogLevel::Warn),
            LogLevelFilter::Info => Some(LogLevel::Info),
            LogLevelFilter::Debug => Some(LogLevel::Debug),
            LogLevelFilter::Trace => Some(LogLevel::Trace),
        }
    }
}

/// Splitting a character sequence at a separator, kept as a list of tokens.
/// Splitting the empty sequence yields one empty token, and a trailing
/// separator yields a trailing empty token, as `str::split` does.
pub open spec fn spec_split(s: Seq<char>, sep: char) -> Seq<Seq<char>>
    decreases s.len(),
{
    if s.len() == 0 {
        seq![Seq::<char>::empty()]
    } else if s[0] == sep {
        seq![Seq::<char>::empty()] + spec_split(s.drop_first(), sep)
    } else {
        let rest = spec_split(s.drop_first(), sep);
        seq![seq![s[0]] + rest[0]] + rest.drop_first()
    }
}

pub proof fn lemma_split_len_pos(s: Seq<char>, sep: char)
    ensures
        spec_split(s, sep).len() >= 1,
    decreases s.len(),
{
    if s.len() > 0 {
        lemma_split_len_pos(s.drop_first(), sep);
    }
}

/// Glue the pending partial token onto the front of the parts still to come.
pub open spec fn spec_prepend(p: Seq<char>, parts: Seq<Seq<char>>) -> Seq<Seq<char>> {
    seq![p + parts[0]] + parts.drop_first()
}

/// Splits at every occurrence of `sep`; empty tokens are kept.
pub fn split_str(s: &str, sep: char) -> (r: Vec<String>)
    ensures
        r@.map_values(|t: String| t@) == spec_split(s@, sep),
{
    let n = s.unicode_len();
    let mut done: Vec<String> = Vec::new();
    let mut tok_start: usize = 0;
    let mut i: usize = 0;
    proof {
        lemma_split_len_pos(s@, sep);
        assert(s@.skip(0) =~= s@);
        assert(s@.subrange(0, 0) =~= Seq::<char>::empty());
        assert(done@.map_values(|t: String| t@) =~= Seq::<Seq<char>>::empty());
        assert(Seq::<char>::empty() + spec_split(s@, sep)[0] =~= spec_split(s@, sep)[0]);
        assert(spec_prepend(Seq::<char>::empty(), spec_split(s@, sep)) =~= spec_split(s@, sep));
        assert(done@.map_values(|t: String| t@) + spec_prepend(
            Seq::<char>::empty(),
            spec_split(s@, sep),
        ) =~= spec_split(s@, sep));
    }
    while i < n
        invariant
            tok_start <= i <= n,
            n == s@.len(),
            done@.map_values(|t: String| t@) + spec_prepend(
                s@.subrange(tok_start as int, i as int),
                spec_split(s@.skip(i as int), sep),
            ) =~= spec_split(s@, sep),
        decreases n - i,
    {
        let ghost cur = s@.subrange(tok_start as int, i as int);
        let ghost suffix = s@.skip(i as int);
        proof {
            assert(suffix.len() > 0);
            assert(suffix[0] == s@[i as int]);
            assert(suffix.drop_first() =~= s@.skip(i as int + 1));
            lemma_split_len_pos(s@.skip(i as int + 1), sep);
        }
        let c = s.get_char(i);
        if c == sep {
            let tok = String::from_str(s.substring_char(tok_start, i));
            done.push(tok);
            proof {
                // with s[i] == sep the split of the suffix opens with an
                // empty token, so the pending token is complete
                assert(spec_split(suffix, sep) =~= seq![Seq::<char>::empty()] + spec_split(
                    s@.skip(i as int + 1),
                    sep,
                ));
                assert(spec_prepend(cur, spec_split(suffix, sep))[0] =~= cur);
                assert(spec_prepend(cur, spec_split(suffix, sep)) =~= seq![cur] + spec_split(
                    s@.skip(i as int + 1),
                    sep,
                ));
                assert(spec_prepend(
                    Seq::<char>::empty(),
                    spec_split(s@.skip(i as int + 1), sep),
                ) =~= spec_split(s@.skip(i as int + 1), sep));
                assert(done@.map_values(|t: String| t@) =~= done@.map_values(
                    |t: String| t@,
                ).drop_last().push(cur));
            }
            tok_start = i + 1;
        } else {
            proof {
                let rest = spec_split(s@.skip(i as int + 1), sep);
                assert(spec_split(suffix, sep) =~= seq![seq![suffix[0]] + rest[0]]
                    + rest.drop_first());
                assert(cur + (seq![suffix[0]] + rest[0]) =~= s@.subrange(
                    tok_start as int,
                    i as int + 1,
                ) + rest[0]);
                assert(spec_prepend(cur, spec_split(suffix, sep)) =~= spec_prepend(
                    s@.subrange(tok_start as int, i as int + 1),
                    rest,
                ));
            }
        }
        i += 1;
    }
    proof {
        assert(s@.skip(n as int) =~= Seq::<char>::empty());
        assert(spec_split(s@.skip(n as int), sep) =~= seq![Seq::<char>::empty()]);
        assert(s@.subrange(tok_start as int, n as int) + Seq::<char>::empty() =~= s@.subrange(
            tok_start as int,
            n as int,
        ));
        assert(spec_prepend(
            s@.subrange(tok_start as int, n as int),
            spec_split(s@.skip(n as int), sep),
        ) =~= seq![s@.subrange(tok_start as int, n as int)]);
    }
    let tok = String::from_str(s.substring_char(tok_start, n));
    done.push(tok);
    done
}

/// The characters stripped around a level token: Unicode whitespace, as
/// `str::trim` strips it.
pub open spec fn spec_is_space(c: char) -> bool {
    let u = c as int;
    (9 <= u && u <= 13) || u == 32 || u == 0x85 || u == 0xa0 || u == 0x1680 || (0x2000 <= u && u
        <= 0x200a) || u == 0x2028 || u == 0x2029 || u == 0x202f || u == 0x205f || u == 0x3000
}

pub open spec fn spec_trim_start(s: Seq<char>) -> Seq<char>
    decreases s.len(),
{
    if s.len() > 0 && spec_is_space(s[0]) {
        spec_trim_start(s.drop_first())
    } else {
        s
    }
}

pub open spec fn spec_trim_end(s: Seq<char>) -> Seq<char>
    decreases s.len(),
{
    if s.len() > 0 && spec_is_space(s.last()) {
        spec_trim_end(s.drop_last())
    } else {
        s
    }
}

/// The sequence with leading and trailing whitespace removed.
pub open spec fn spec_trim(s: Seq<char>) -> Seq<char> {
    spec_trim_end(spec_trim_start(s))
}

fn is_space(c: char) -> (r: bool)
    ensures
        r == spec_is_space(c),
{
    let u = c as u32;
    (9 <= u && u <= 13) || u == 32 || u == 0x85 || u == 0xa0 || u == 0x1680 || (0x2000 <= u && u
        <= 0x200a) || u == 0x2028 || u == 0x2029 || u == 0x202f || u == 0x205f || u == 0x3000
}

/// Strips leading and trailing whitespace.
pub fn trim_str(s: &str) -> (r: String)
    ensures
        r@ == spec_trim(s@),
{
    let n = s.unicode_len();
    let mut lo: usize = 0;
    proof {
        assert(s@.skip(0) =~= s@);
    }
    while lo < n && is_space(s.get_char(lo))
        invariant
            lo <= n,
            n == s@.len(),
            spec_trim_start(s@) == spec_trim_start(s@.skip(lo as int)),
        decreases n - lo,
    {
        proof {
            assert(s@.skip(lo as int).drop_first() =~= s@.skip(lo as int + 1));
        }
        lo += 1;
    }
    proof {
        assert(s@.skip(lo as int) =~= s@.subrange(lo as int, n as int));
        assert(spec_trim_start(s@) == s@.subrange(lo as int, n as int));
    }
    let mut hi: usize = n;
    while hi > lo && is_space(s.get_char(hi - 1))
        invariant
            lo <= hi <= n,
            n == s@.len(),
            spec_trim_start(s@) == s@.subrange(lo as int, n as int),
            spec_trim_end(s@.subrange(lo as int, n as int)) == spec_trim_end(
                s@.subrange(lo as int, hi as int),
            ),
        decreases hi,
    {
        proof {
            assert(s@.subrange(lo as int, hi as int).drop_last() =~= s@.subrange(
                lo as int,
                hi as int - 1,
            ));
        }
        hi -= 1;
    }
    proof {
        if hi == lo {
            assert(s@.subrange(lo as int, hi as int).len() == 0);
        }
        assert(spec_trim_end(s@.subrange(lo as int, hi as int)) == s@.subrange(
            lo as int,
            hi as int,
        ));
    }
    String::from_str(s.substring_char(lo, hi))
}

/// Rank of a character under case folding of the ASCII letters.
pub open spec fn spec_lower(c: char) -> int {
    if 65 <= c as int && c as int <= 90 {
        c as int + 32
    } else {
        c as int
    }
}

/// Character sequences equal up to ASCII case.
pub open spec fn spec_eq_ignore_case(a: Seq<char>, b: Seq<char>) -> bool {
    a.len() == b.len() && (forall|i: int| 0 <= i < a.len() ==> spec_lower(a[i]) == spec_lower(b[i]))
}

fn lower_char(c: char) -> (r: u32)
    ensures
        r as int == spec_lower(c),
{
    let u = c as u32;
    if 65 <= u && u <= 90 {
        u + 32
    } else {
        u
    }
}

/// Compares two strings for equality ignoring ASCII case.
pub fn eq_ignore_case(a: &str, b: &str) -> (r: bool)
    ensures
        r == spec_eq_ignore_case(a@, b@),
{
    let na = a.unicode_len();
    let nb = b.unicode_len();
    if na != nb {
        return false;
    }
    let mut i: usize = 0;
    while i < na
        invariant
            i <= na,
            na == a@.len(),
            na == b@.len(),
            forall|j: int| 0 <= j < i ==> spec_lower(a@[j]) == spec_lower(b@[j]),
        decreases na - i,
    {
        if lower_char(a.get_char(i)) != lower_char(b.get_char(i)) {
            return false;
        }
        i += 1;
    }
    true
}

/// The level threshold a token names, matched ignoring case, if any.
pub open spec fn spec_level_of_token(t: Seq<char>) -> Option<LogLevelFilter> {
    if spec_eq_ignore_case(t, "off"@) {
        Some(LogLevelFilter::Off)
    } else if spec_eq_ignore_case(t, "error"@) {
        Some(LogLevelFilter::Error)
    } else if spec_eq_ignore_case(t, "warn"@) {
        Some(LogLevelFilter::Warn)
    } else if spec_eq_ignore_case(t, "info"@) {
        Some(LogLevelFilter::Info)
    } else if spec_eq_ignore_case(t, "debug"@) {
        Some(LogLevelFilter::Debug)
    } else if spec_eq_ignore_case(t, "trace"@) {
        Some(LogLevelFilter::Trace)
    } else {
        None
    }
}

/// Parses a level name such as `WARN` or `warn`.
pub fn level_of_token(t: &str) -> (r: Option<LogLevelFilter>)
    ensures
        r == spec_level_of_token(t@),
{
    proof {
        reveal_strlit("off");
        reveal_strlit("error");
        reveal_strlit("warn");
        reveal_strlit("info");
        reveal_strlit("debug");
        reveal_strlit("trace");
    }
    if eq_ignore_case(t, "off") {
        Some(LogLevelFilter::Off)
    } else if eq_ignore_case(t, "error") {
        Some(LogLevelFilter::Error)
    } else if eq_ignore_case(t, "warn") {
        Some(LogLevelFilter::Warn)
    } else if eq_ignore_case(t, "info") {
        Some(LogLevelFilter::Info)
    } else if eq_ignore_case(t, "debug") {
        Some(LogLevelFilter::Debug)
    } else if eq_ignore_case(t, "trace") {
        Some(LogLevelFilter::Trace)
    } else {
        None
    }
}

/// A single filter directive: an optional module prefix and a threshold.
/// A directive without a name is a global default.
pub struct LogDirective {
    pub name: Option<String>,
    pub level: LogLevelFilter,
}

/// Mathematical picture of a directive.
pub ghost struct LogDirectiveView {
    pub name: Option<Seq<char>>,
    pub level: LogLevelFilter,
}

impl View for LogDirective {
    type V = LogDirectiveView;

    open spec fn view(&self) -> LogDirectiveView {
        LogDirectiveView {
            name: match self.name {
                Some(n) => Some(n@),
                None => None,
            },
            level: self.level,
        }
    }
}

impl Clone for LogDirective {
    fn clone(&self) -> (r: Self)
        ensures
            r@ == self@,
    {
        LogDirective {
            name: match &self.name {
                Some(n) => Some(n.clone()),
                None => None,
            },
            level: self.level,
        }
    }
}

/// A diagnostic raised while parsing a logging specification; the input is
/// never rejected, the offending part is skipped.
pub enum LogSpecWarning {
    /// The whole specification had more than one `/`.
    TooManySlashes(String),
    /// A token had more than one `=`.
    InvalidToken(String),
    /// The part after `=` named no known level.
    InvalidLevel(String),
}

/// Mathematical picture of a parse warning.
pub enum LogSpecWarningView {
    TooManySlashes(Seq<char>),
    InvalidToken(Seq<char>),
    InvalidLevel(Seq<char>),
}

impl View for LogSpecWarning {
    type V = LogSpecWarningView;

    open spec fn view(&self) -> LogSpecWarningView {
        match self {
            LogSpecWarning::TooManySlashes(s) => LogSpecWarningView::TooManySlashes(s@),
            LogSpecWarning::InvalidToken(s) => LogSpecWarningView::InvalidToken(s@),
            LogSpecWarning::InvalidLevel(s) => LogSpecWarningView::InvalidLevel(s@),
        }
    }
}

/// The directive one comma-separated token yields, if any. A bare level sets
/// the global default; a bare name, or a `name=` with nothing after the `=`,
/// implies the most verbose threshold; `name=level` sets that threshold.
/// Empty and malformed tokens yield nothing.
pub open spec fn spec_token_directive(tok: Seq<char>) -> Option<LogDirectiveView> {
    let parts = spec_split(tok, '=');
    if tok.len() == 0 {
        None
    } else if parts.len() == 1 {
        match spec_level_of_token(tok) {
            Some(l) => Some(LogDirectiveView { name: None, level: l }),
            None => Some(LogDirectiveView { name: Some(tok), level: LogLevelFilter::Trace }),
        }
    } else if parts.len() == 2 {
        let p1 = spec_trim(parts[1]);
        if p1.len() == 0 {
            Some(LogDirectiveView { name: Some(parts[0]), level: LogLevelFilter::Trace })
        } else {
            match spec_level_of_token(p1) {
                Some(l) => Some(LogDirectiveView { name: Some(parts[0]), level: l }),
                None => None,
            }
        }
    } else {
        None
    }
}

/// The warning one token yields, if any.
pub open spec fn spec_token_warning(tok: Seq<char>) -> Option<LogSpecWarningView> {
    let parts = spec_split(tok, '=');
    if tok.len() == 0 {
        None
    } else if parts.len() >= 3 {
        Some(LogSpecWarningView::InvalidToken(tok))
    } else if parts.len() == 2 && spec_trim(parts[1]).len() > 0 && spec_level_of_token(
        spec_trim(parts[1]),
    ) is None {
        Some(LogSpecWarningView::InvalidLevel(spec_trim(parts[1])))
    } else {
        None
    }
}

pub open spec fn spec_directives_of_tokens(toks: Seq<Seq<char>>) -> Seq<LogDirectiveView>
    decreases toks.len(),
{
    if toks.len() == 0 {
        Seq::empty()
    } else {
        match spec_token_directive(toks[0]) {
            Some(d) => seq![d] + spec_directives_of_tokens(toks.drop_first()),
            None => spec_directives_of_tokens(toks.drop_first()),
        }
    }
}

pub open spec fn spec_warnings_of_tokens(toks: Seq<Seq<char>>) -> Seq<LogSpecWarningView>
    decreases toks.len(),
{
    if toks.len() == 0 {
        Seq::empty()
    } else {
        match spec_token_warning(toks[0]) {
            Some(w) => seq![w] + spec_warnings_of_tokens(toks.drop_first()),
            None => spec_warnings_of_tokens(toks.drop_first()),
        }
    }
}

/// The directives a whole specification yields: the part before the first
/// `/` is a comma-separated token list; a second `/` voids the input.
pub open spec fn spec_logging_directives(s: Seq<char>) -> Seq<LogDirectiveView> {
    let slash = spec_split(s, '/');
    if slash.len() >= 3 {
        Seq::empty()
    } else {
        spec_directives_of_tokens(spec_split(slash[0], ','))
    }
}

/// The warnings a whole specification yields.
pub open spec fn spec_logging_warnings(s: Seq<char>) -> Seq<LogSpecWarningView> {
    let slash = spec_split(s, '/');
    if slash.len() >= 3 {
        seq![LogSpecWarningView::TooManySlashes(s)]
    } else {
        spec_warnings_of_tokens(spec_split(slash[0], ','))
    }
}

proof fn lemma_directives_of_tokens_snoc(toks: Seq<Seq<char>>, t: Seq<char>)
    ensures
        spec_directives_of_tokens(toks.push(t)) == spec_directives_of_tokens(toks) + (match spec_token_directive(
            t,
        ) {
            Some(d) => seq![d],
            None => Seq::<LogDirectiveView>::empty(),
        }),
        spec_warnings_of_tokens(toks.push(t)) == spec_warnings_of_tokens(toks) + (match spec_token_warning(
            t,
        ) {
            Some(w) => seq![w],
            None => Seq::<LogSpecWarningView>::empty(),
        }),
    decreases toks.len(),
{
    if toks.len() == 0 {
        assert(toks.push(t)[0] == t);
        assert(toks.push(t).drop_first() =~= Seq::<Seq<char>>::empty());
        assert(spec_directives_of_tokens(toks.push(t).drop_first())
            =~= Seq::<LogDirectiveView>::empty());
        assert(spec_warnings_of_tokens(toks.push(t).drop_first())
            =~= Seq::<LogSpecWarningView>::empty());
        assert(spec_directives_of_tokens(toks.push(t)) =~= spec_directives_of_tokens(toks)
            + (match spec_token_directive(t) {
            Some(d) => seq![d],
            None => Seq::<LogDirectiveView>::empty(),
        }));
        assert(spec_warnings_of_tokens(toks.push(t)) =~= spec_warnings_of_tokens(toks)
            + (match spec_token_warning(t) {
            Some(w) => seq![w],
            None => Seq::<LogSpecWarningView>::empty(),
        }));
    } else {
        assert(toks.push(t).drop_first() =~= toks.drop_first().push(t));
        assert(toks.push(t)[0] == toks[0]);
        lemma_directives_of_tokens_snoc(toks.drop_first(), t);
        assert(spec_directives_of_tokens(toks.push(t)) =~= spec_directives_of_tokens(toks)
            + (match spec_token_directive(t) {
            Some(d) => seq![d],
            None => Seq::<LogDirectiveView>::empty(),
        }));
        assert(spec_warnings_of_tokens(toks.push(t)) =~= spec_warnings_of_tokens(toks)
            + (match spec_token_warning(t) {
            Some(w) => seq![w],
            None => Seq::<LogSpecWarningView>::empty(),
        }));
    }
}

/// Handles one comma-separated token of the specification.
fn handle_token(tok: &str) -> (r: (Option<LogDirective>, Option<LogSpecWarning>))
    ensures
        match r.0 {
            Some(d) => spec_token_directive(tok@) == Some(d@),
            None => spec_token_directive(tok@) is None,
        },
        match r.1 {
            Some(w) => spec_token_warning(tok@) == Some(w@),
            None => spec_token_warning(tok@) is None,
        },
{
    if tok.unicode_len() == 0 {
        return (None, None);
    }
    let parts = split_str(tok, '=');
    let ghost pv = spec_split(tok@, '=');
    proof {
        assert(parts@.map_values(|t: String| t@).len() == pv.len());
        assert(parts@.len() >= 1 ==> parts@.map_values(|t: String| t@)[0] == parts@[0]@);
        assert(parts@.len() >= 2 ==> parts@.map_values(|t: String| t@)[1] == parts@[1]@);
    }
    if parts.len() == 1 {
        match level_of_token(tok) {
            Some(l) => (Some(LogDirective { name: None, level: l }), None),
            None => (
                Some(LogDirective { name: Some(String::from_str(tok)), level: LogLevelFilter::Trace }),
                None,
            ),
        }
    } else if parts.len() == 2 {
        let p1 = trim_str(parts[1].as_str());
        if p1.unicode_len() == 0 {
            (Some(LogDirective { name: Some(parts[0].clone()), level: LogLevelFilter::Trace }), None)
        } else {
            match level_of_token(p1.as_str()) {
                Some(l) => (Some(LogDirective { name: Some(parts[0].clone()), level: l }), None),
                None => (None, Some(LogSpecWarning::InvalidLevel(p1))),
            }
        }
    } else {
        (None, Some(LogSpecWarning::InvalidToken(String::from_str(tok))))
    }
}

/// Parses a logging specification such as `info,proxy::http=debug`, keeping
/// the warnings the grammar raises. No input is fatal: offending parts are
/// skipped and reported.
pub fn parse_logging_spec_with_warnings(input: &str) -> (r: (
    Vec<LogDirective>,
    Vec<LogSpecWarning>,
))
    ensures
        r.0@.map_values(|d: LogDirective| d@) == spec_logging_directives(input@),
        r.1@.map_values(|w: LogSpecWarning| w@) == spec_logging_warnings(input@),
{
    let slash = split_str(input, '/');
    proof {
        lemma_split_len_pos(input@, '/');
        assert(slash@.map_values(|t: String| t@)[0] == slash@[0]@);
    }
    if slash.len() >= 3 {
        let mut warns: Vec<LogSpecWarning> = Vec::new();
        warns.push(LogSpecWarning::TooManySlashes(String::from_str(input)));
        let dirs: Vec<LogDirective> = Vec::new();
        proof {
            assert(warns@.map_values(|w: LogSpecWarning| w@) =~= spec_logging_warnings(input@));
            assert(dirs@.map_values(|d: LogDirective| d@) =~= spec_logging_directives(input@));
        }
        return (dirs, warns);
    }
    let tokens = split_str(slash[0].as_str(), ',');
    let ghost tv = tokens@.map_values(|t: String| t@);
    let mut dirs: Vec<LogDirective> = Vec::new();
    let mut warns: Vec<LogSpecWarning> = Vec::new();
    let mut i: usize = 0;
    proof {
        assert(tv.take(0) =~= Seq::<Seq<char>>::empty());
        assert(dirs@.map_values(|d: LogDirective| d@) =~= spec_directives_of_tokens(tv.take(0)));
        assert(warns@.map_values(|w: LogSpecWarning| w@) =~= spec_warnings_of_tokens(tv.take(0)));
    }
    while i < tokens.len()
        invariant
            i <= tokens.len(),
            tv == tokens@.map_values(|t: String| t@),
            dirs@.map_values(|d: LogDirective| d@) == spec_directives_of_tokens(tv.take(i as int)),
            warns@.map_values(|w: LogSpecWarning| w@) == spec_warnings_of_tokens(
                tv.take(i as int),
            ),
        decreases tokens.len() - i,
    {
        proof {
            assert(tv[i as int] == tokens@[i as int]@);
            assert(tv.take(i as int).push(tv[i as int]) =~= tv.take(i as int + 1));
            lemma_directives_of_tokens_snoc(tv.take(i as int), tv[i as int]);
        }
        let (d, w) = handle_token(tokens[i].as_str());
        if let Some(d) = d {
            dirs.push(d);
        }
        if let Some(w) = w {
            warns.push(w);
        }
        proof {
            assert(dirs@.map_values(|d: LogDirective| d@) =~= spec_directives_of_tokens(
                tv.take(i as int + 1),
            ));
            assert(warns@.map_values(|w: LogSpecWarning| w@) =~= spec_warnings_of_tokens(
                tv.take(i as int + 1),
            ));
        }
        i += 1;
    }
    proof {
        assert(tv.take(tokens.len() as int) =~= tv);
    }
    (dirs, warns)
}

/// Parses a logging specification, dropping the warnings.
pub fn parse_logging_spec(input: &str) -> (r: Vec<LogDirective>)
    ensures
        r@.map_values(|d: LogDirective| d@) == spec_logging_directives(input@),
{
    let (dirs, _warns) = parse_logging_spec_with_warnings(input);
    dirs
}

impl LogLevelFilter {
    /// Parses a level name, ignoring case; unknown names are an error.
    pub fn from_str(level: &str) -> (r: Result<LogLevelFilter, ()>)
        ensures
            match spec_level_of_token(level@) {
                Some(f) => r == Result::<LogLevelFilter, ()>::Ok(f),
                None => r == Result::<LogLevelFilter, ()>::Err(()),
            },
    {
        crate::ok_or(level_of_token(level), ())
    }
}

/// Where log lines go. The library only routes; the process around it owns
/// the sockets and file handles these stand for.
pub enum LoggerBackend {
    /// The process's standard output.
    Stdout,
    /// A UNIX datagram socket, by filesystem path.
    Unix(String),
    /// A UDP socket, as bind and peer addresses.
    Udp(String, String),
    /// A TCP connection, as a peer address.
    Tcp(String),
}

/// Metadata about a log message.
pub struct LogMetadata {
    pub level: LogLevel,
    pub target: String,
}

/// The logging filter: the directive list in the order the specification
/// gave it, a routing target and the tag every line carries. The longest
/// applicable directive decides, wherever it stands in the list.
pub struct Logger {
    pub directives: Vec<LogDirective>,
    pub backend: LoggerBackend,
    pub tag: String,
}

/// A directive applies to a message when it is global or its name prefixes
/// the message's target.
pub open spec fn spec_directive_matches(d: LogDirectiveView, target: Seq<char>) -> bool {
    match d.name {
        None => true,
        Some(n) => n.len() <= target.len() && target.subrange(0, n.len() as int) == n,
    }
}

/// The length of the module prefix a directive applies to; a global
/// directive applies to the empty prefix.
pub open spec fn spec_name_len(d: LogDirectiveView) -> int {
    match d.name {
        None => 0,
        Some(n) => n.len() as int,
    }
}

/// The directive that decides for a message: an applicable directive of
/// maximal prefix length. Of several equally long applicable directives the
/// last listed wins.
pub open spec fn spec_longest_match(dirs: Seq<LogDirectiveView>, target: Seq<char>) -> Option<
    LogDirectiveView,
>
    decreases dirs.len(),
{
    if dirs.len() == 0 {
        None
    } else {
        let prev = spec_longest_match(dirs.drop_last(), target);
        let d = dirs.last();
        if spec_directive_matches(d, target) {
            match prev {
                Some(p) => if spec_name_len(p) > spec_name_len(d) {
                    Some(p)
                } else {
                    Some(d)
                },
                None => Some(d),
            }
        } else {
            prev
        }
    }
}

/// Whether a message passes the directive list: true exactly when the
/// longest applicable directive's threshold is at or above the message's
/// level; with no applicable directive nothing passes.
pub open spec fn spec_enabled(
    dirs: Seq<LogDirectiveView>,
    target: Seq<char>,
    level: LogLevel,
) -> bool {
    match spec_longest_match(dirs, target) {
        Some(d) => level.rank() <= d.level.rank(),
        None => false,
    }
}

/// Whether `prefix` starts `target`.
pub fn str_starts_with(target: &str, prefix: &str) -> (r: bool)
    ensures
        r == (prefix@.len() <= target@.len() && target@.subrange(0, prefix@.len() as int)
            == prefix@),
{
    let np = prefix.unicode_len();
    let nt = target.unicode_len();
    if np > nt {
        return false;
    }
    let mut i: usize = 0;
    while i < np
        invariant
            i <= np,
            np == prefix@.len(),
            np <= nt == target@.len(),
            forall|j: int| 0 <= j < i ==> target@[j] == prefix@[j],
        decreases np - i,
    {
        if target.get_char(i) != prefix.get_char(i) {
            proof {
                assert(target@.subrange(0, np as int)[i as int] != prefix@[i as int]);
            }
            return false;
        }
        i += 1;
    }
    proof {
        assert(target@.subrange(0, np as int) =~= prefix@);
    }
    true
}

impl LogLevel {
    fn rank_exec(&self) -> (r: usize)
        ensures
            r == self.rank(),
    {
        match self {
            LogLevel::Error => 1,
            LogLevel::Warn => 2,
            LogLevel::Info => 3,
            LogLevel::Debug => 4,
            LogLevel::Trace => 5,
        }
    }
}

impl LogLevelFilter {
    fn rank_exec(&self) -> (r: usize)
        ensures
            r == self.rank(),
    {
        match self {
            LogLevelFilter::Off => 0,
            LogLevelFilter::Error => 1,
            LogLevelFilter::Warn => 2,
            LogLevelFilter::Info => 3,
            LogLevelFilter::Debug => 4,
            LogLevelFilter::Trace => 5,
        }
    }
}

impl Logger {
    /// The directive list as its mathematical picture.
    pub open spec fn directives_view(&self) -> Seq<LogDirectiveView> {
        self.directives@.map_values(|d: LogDirective| d@)
    }

    /// A fresh logger: errors only, to standard output.
    pub fn new() -> (r: Logger)
        ensures
            r.directives_view() =~= seq![
                LogDirectiveView { name: None, level: LogLevelFilter::Error },
            ],
            r.backend is Stdout,
            r.tag@ == "WAAAAAAAH"@,
    {
        let mut directives: Vec<LogDirective> = Vec::new();
        directives.push(LogDirective { name: None, level: LogLevelFilter::Error });
        Logger { directives, backend: LoggerBackend::Stdout, tag: String::from_str("WAAAAAAAH") }
    }

    /// Installs the directives a specification yields, the routing target and
    /// the tag; hands back the parse warnings for the caller to report.
    pub fn init(&mut self, tag: String, input: &str, backend: LoggerBackend) -> (r: Vec<
        LogSpecWarning,
    >)
        ensures
            final(self).directives_view() == spec_logging_directives(input@),
            final(self).backend == backend,
            final(self).tag == tag,
            r@.map_values(|w: LogSpecWarning| w@) == spec_logging_warnings(input@),
    {
        let (directives, warnings) = parse_logging_spec_with_warnings(input);
        self.directives = directives;
        self.backend = backend;
        self.tag = tag;
        warnings
    }

    /// Replaces the directive list.
    pub fn set_directives(&mut self, directives: Vec<LogDirective>)
        ensures
            final(self).directives == directives,
            final(self).backend == old(self).backend,
            final(self).tag == old(self).tag,
    {
        self.directives = directives;
    }

    /// Whether a message passes the filter: the applicable directive with the
    /// longest module prefix decides, wherever the specification listed it;
    /// of equally long applicable directives the last listed decides.
    pub fn enabled(&self, meta: &LogMetadata) -> (r: bool)
        ensures
            r == spec_enabled(self.directives_view(), meta.target@, meta.level),
    {
        let ghost dv = self.directives_view();
        let mut best: Option<(usize, LogLevelFilter)> = None;
        let mut i: usize = 0;
        let n = self.directives.len();
        proof {
            assert(dv.take(0) =~= Seq::<LogDirectiveView>::empty());
        }
        while i < n
            invariant
                i <= n,
                n == self.directives@.len(),
                dv == self.directives_view(),
                match spec_longest_match(dv.take(i as int), meta.target@) {
                    Some(d) => best matches Some(b) && b.0 == spec_name_len(d) && b.1 == d.level,
                    None => best is None,
                },
            decreases n - i,
        {
            proof {
                assert(dv.take(i as int + 1).drop_last() =~= dv.take(i as int));
                assert(dv.take(i as int + 1).last() == self.directives@[i as int]@);
            }
            let d = &self.directives[i];
            let matched: Option<usize> = match &d.name {
                None => Some(0),
                Some(nm) => if str_starts_with(meta.target.as_str(), nm.as_str()) {
                    Some(nm.as_str().unicode_len())
                } else {
                    None
                },
            };
            if let Some(nlen) = matched {
                let take_it = match &best {
                    None => true,
                    Some((bl, _)) => nlen >= *bl,
                };
                if take_it {
                    best = Some((nlen, d.level));
                }
            }
            i += 1;
        }
        proof {
            assert(dv.take(n as int) =~= dv);
        }
        match best {
            Some((_, lev)) => meta.level.rank_exec() <= lev.rank_exec(),
            None => false,
        }
    }

    /// The line to emit for a message, if it passes the filter. The caller
    /// writes it to what `backend` stands for.
    pub fn log(&self, meta: &LogMetadata, args: &str) -> (r: Option<String>)
        ensures
            match r {
                Some(line) => spec_enabled(self.directives_view(), meta.target@, meta.level)
                    && line@ == args@,
                None => !spec_enabled(self.directives_view(), meta.target@, meta.level),
            },
    {
        if self.enabled(meta) {
            Some(String::from_str(args))
        } else {
            None
        }
    }
}

/// What decides for a message is truly a longest match: when any directive
/// applies, the decider is one of the listed directives, it applies, and no
/// applicable directive has a longer prefix; when none applies, there is no
/// decider and nothing passes the filter.
pub proof fn lemma_longest_match_decides(dirs: Seq<LogDirectiveView>, target: Seq<char>)
    ensures
        match spec_longest_match(dirs, target) {
            Some(d) => spec_directive_matches(d, target) && dirs.contains(d) && forall|j: int|
                0 <= j < dirs.len() && spec_directive_matches(#[trigger] dirs[j], target)
                    ==> spec_name_len(dirs[j]) <= spec_name_len(d),
            None => forall|j: int|
                0 <= j < dirs.len() ==> !spec_directive_matches(#[trigger] dirs[j], target),
        },
    decreases dirs.len(),
{
    if dirs.len() > 0 {
        let prefix = dirs.drop_last();
        lemma_longest_match_decides(prefix, target);
        assert(forall|j: int| 0 <= j < prefix.len() ==> #[trigger] prefix[j] == dirs[j]);
        let d_last = dirs.last();
        let prev = spec_longest_match(prefix, target);
        match prev {
            Some(p) => {
                let k = choose|k: int| 0 <= k < prefix.len() && #[trigger] prefix[k] == p;
                assert(dirs[k] == p);
                assert(dirs.contains(p));
            },
            None => {},
        }
        match spec_longest_match(dirs, target) {
            Some(d) => {
                if spec_directive_matches(d_last, target) && d == d_last {
                    assert(dirs[dirs.len() - 1] == d);
                    assert(dirs.contains(d));
                }
                assert forall|j: int|
                    0 <= j < dirs.len() && spec_directive_matches(#[trigger] dirs[j], target)
                        implies spec_name_len(dirs[j]) <= spec_name_len(d) by {
                    if j < dirs.len() - 1 {
                        assert(prefix[j] == dirs[j]);
                        match prev {
                            Some(p) => {
                                assert(spec_name_len(prefix[j]) <= spec_name_len(p));
                                // the winner is at least as long as the best of the prefix
                                if spec_directive_matches(d_last, target) {
                                    assert(spec_name_len(p) <= spec_name_len(d));
                                } else {
                                    assert(d == p);
                                }
                            },
                            None => {
                                assert(!spec_directive_matches(prefix[j], target));
                            },
                        }
                    } else {
                        // the last directive applies, so the winner is at
                        // least as long as it
                        assert(dirs[j] == d_last);
                        match prev {
                            Some(p) => {
                                if spec_name_len(p) > spec_name_len(d_last) {
                                    assert(d == p);
                                } else {
                                    assert(d == d_last);
                                }
                            },
                            None => {
                                assert(d == d_last);
                            },
                        }
                    }
                }
            },
            None => {
                assert(!spec_directive_matches(d_last, target));
                assert(prev is None);
                assert forall|j: int| 0 <= j < dirs.len() implies !spec_directive_matches(
                    #[trigger] dirs[j],
                    target,
                ) by {
                    if j < dirs.len() - 1 {
                        assert(prefix[j] == dirs[j]);
                    } else {
                        assert(dirs[j] == d_last);
                    }
                }
            },
        }
    }
}


} // verus!
