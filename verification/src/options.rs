//! The run configuration: operating mode, logging level, and the options
//! gathered from a command line.
use crate::text;
use vstd::prelude::*;

verus! {

/// The mode the program operates in.
#[derive(Debug, Clone, PartialEq, Eq, Structural)]
pub enum Mode {
    Filter,
    Update,
    Verify,
}

/// The level of detail the program logs.
#[derive(Debug, Clone, PartialEq, Eq, Structural)]
pub enum LogLevel {
    Quiet,
    Info,
    Progress,
    Debug,
}

/// Everything a run needs to know, built once from the command line and
/// read-only afterwards.
#[derive(Debug, Clone)]
pub struct Options {
    /// Whether the help message is requested.
    pub help: bool,
    /// Whether version information is requested.
    pub version_info: bool,
    /// The name under which the program was invoked.
    pub program_name: String,
    /// The hashing algorithm's configured name.
    pub algorithm: String,
    /// Whether to operate on every subdirectory instead of one folder.
    pub subdir_mode: bool,
    /// The operating mode.
    pub mode: Mode,
    /// The logging level.
    pub log_level: LogLevel,
    /// Maximum number of worker threads; zero means no cap.
    pub num_threads: usize,
    /// The folder to operate on.
    pub folder: String,
}

impl Options {
    /// Indicates that the program is at the debug loglevel.
    pub fn loglevel_debug(&self) -> (r: bool)
        ensures
            r == (self.log_level == LogLevel::Debug),
    {
        self.log_level == LogLevel::Debug
    }

    /// Indicates that the program is at least at the info loglevel.
    pub fn loglevel_info(&self) -> (r: bool)
        ensures
            r == (self.log_level == LogLevel::Debug || self.log_level == LogLevel::Info),
    {
        self.log_level == LogLevel::Debug || self.log_level == LogLevel::Info
    }

    /// Indicates that the program is at the progress loglevel.
    pub fn loglevel_progress(&self) -> (r: bool)
        ensures
            r == (self.log_level == LogLevel::Progress),
    {
        self.log_level == LogLevel::Progress
    }
}

/// The ghost image of an Options value.
pub ghost struct OptState {
    pub help: bool,
    pub version_info: bool,
    pub program_name: Seq<char>,
    pub algorithm: Seq<char>,
    pub subdir_mode: bool,
    pub mode: Mode,
    pub log_level: LogLevel,
    pub num_threads: int,
    pub folder: Seq<char>,
}

impl View for Options {
    type V = OptState;

    open spec fn view(&self) -> OptState {
        OptState {
            help: self.help,
            version_info: self.version_info,
            program_name: self.program_name@,
            algorithm: self.algorithm@,
            subdir_mode: self.subdir_mode,
            mode: self.mode,
            log_level: self.log_level,
            num_threads: self.num_threads as int,
            folder: self.folder@,
        }
    }
}

/// What `str::to_lowercase` returns: a function of the characters alone.
pub uninterp spec fn lower_of(s: Seq<char>) -> Seq<char>;

/// Relies on `str::to_lowercase`: the result depends on the characters
/// alone.
#[verifier::external_body]
fn lowercase(s: &String) -> (r: String)
    ensures
        r@ == lower_of(s@),
{
    s.to_lowercase()
}

pub open spec fn spec_contains(s: Seq<char>, c: char) -> bool {
    exists|i: int| 0 <= i < s.len() && #[trigger] s[i] == c
}

/// The position of the first `=` at or after `i`, or the length if there
/// is none.
pub open spec fn first_eq_pos(s: Seq<char>, i: int) -> int
    decreases s.len() - i,
{
    if i < 0 || i >= s.len() {
        s.len() as int
    } else if s[i] == '=' {
        i
    } else {
        first_eq_pos(s, i + 1)
    }
}

proof fn lemma_first_eq_pos(s: Seq<char>, k: int, i: int)
    requires
        0 <= k <= i <= s.len(),
        forall|j: int| k <= j < i ==> s[j] != '=',
        i == s.len() || s[i] == '=',
    ensures
        first_eq_pos(s, k) == i,
    decreases i - k,
{
    if k < i {
        lemma_first_eq_pos(s, k + 1, i);
    }
}

/// How one raw argument expands: an `=` splits it in two; a short bundle
/// of single-letter switches splits into one argument per letter; any
/// other argument stands as it is.
pub open spec fn expand_arg(a: Seq<char>) -> Seq<Seq<char>> {
    if !spec_contains(a, '=') {
        if spec_contains(a, '-') && !text::has_double_dash(a) && a.len() > 2 {
            Seq::new((a.len() - 1) as nat, |j: int| seq!['-', a[j + 1]])
        } else {
            seq![a]
        }
    } else {
        seq![a.take(first_eq_pos(a, 0)), a.skip(first_eq_pos(a, 0) + 1)]
    }
}

/// The whole command line after expansion.
pub open spec fn prepare_spec(args: Seq<Seq<char>>) -> Seq<Seq<char>>
    decreases args.len(),
{
    if args.len() == 0 {
        Seq::empty()
    } else {
        expand_arg(args[0]) + prepare_spec(args.drop_first())
    }
}

proof fn lemma_prepare_snoc(args: Seq<Seq<char>>, x: Seq<char>)
    ensures
        prepare_spec(args.push(x)) == prepare_spec(args) + expand_arg(x),
    decreases args.len(),
{
    if args.len() == 0 {
        assert(args.push(x).drop_first() =~= Seq::<Seq<char>>::empty());
        assert(args.push(x)[0] == x);
        assert(prepare_spec(args.push(x)) == expand_arg(x) + prepare_spec(
            Seq::<Seq<char>>::empty(),
        ));
        assert(prepare_spec(args.push(x)) =~= expand_arg(x));
        assert(prepare_spec(args) + expand_arg(x) =~= expand_arg(x));
    } else {
        assert(args.push(x)[0] == args[0]);
        assert(args.push(x).drop_first() =~= args.drop_first().push(x));
        lemma_prepare_snoc(args.drop_first(), x);
        assert(prepare_spec(args.push(x)) =~= prepare_spec(args) + expand_arg(x));
    }
}

/// Prepares raw arguments for option parsing, applying the two expansion
/// rules of `expand_arg` to each in turn.
pub fn prepare_args(args: Vec<String>) -> (r: Vec<String>)
    ensures
        r.deep_view() == prepare_spec(args.deep_view()),
{
    let ghost all = args.deep_view();
    let mut prepared: Vec<String> = Vec::new();
    proof {
        assert(prepared.deep_view() =~= prepare_spec(all.take(0)));
    }
    let mut idx: usize = 0;
    while idx < args.len()
        invariant
            idx <= args@.len(),
            all == args.deep_view(),
            all.len() == args@.len(),
            forall|i: int| 0 <= i < all.len() ==> all[i] == args@[i]@,
            prepared.deep_view() == prepare_spec(all.take(idx as int)),
        decreases args@.len() - idx,
    {
        let arg = &args[idx];
        let ghost a = arg@;
        let ghost before = prepared.deep_view();
        proof {
            assert(a == all[idx as int]);
        }
        let n = arg.as_str().unicode_len();
        let eq = text::find_char_from(arg.as_str(), 0, '=');
        match eq {
            None => {
                proof {
                    assert(!spec_contains(a, '='));
                }
                let dash = text::find_char_from(arg.as_str(), 0, '-');
                let has_dash = dash.is_some();
                proof {
                    assert(has_dash == spec_contains(a, '-'));
                }
                if has_dash && !text::contains_double_dash(arg.as_str()) && n > 2 {
                    proof {
                        assert(prepared.deep_view() =~= before + Seq::new(
                            0,
                            |t: int| seq!['-', a[t + 1]],
                        ));
                    }
                    let mut j: usize = 1;
                    while j < n
                        invariant
                            1 <= j <= n,
                            n == a.len(),
                            a == arg@,
                            prepared.deep_view() == before + Seq::new(
                                (j - 1) as nat,
                                |t: int| seq!['-', a[t + 1]],
                            ),
                        decreases n - j,
                    {
                        let ghost prev = prepared.deep_view();
                        let single = String::from_str("-").concat(
                            arg.as_str().substring_char(j, j + 1),
                        );
                        proof {
                            reveal_strlit("-");
                            assert(single@ =~= seq!['-', a[j as int]]);
                        }
                        prepared.push(single);
                        proof {
                            assert(prepared.deep_view() =~= prev.push(single@));
                            assert(prepared.deep_view() =~= before + Seq::new(
                                j as nat,
                                |t: int| seq!['-', a[t + 1]],
                            ));
                        }
                        j = j + 1;
                    }
                    proof {
                        assert(Seq::new((n - 1) as nat, |t: int| seq!['-', a[t + 1]])
                            =~= expand_arg(a));
                        assert(prepared.deep_view() == before + expand_arg(a));
                    }
                } else {
                    let ghost prev = prepared.deep_view();
                    prepared.push(arg.clone());
                    proof {
                        assert(prepared.deep_view() =~= prev.push(a));
                        assert(seq![a] =~= expand_arg(a));
                        assert(prepared.deep_view() =~= before + expand_arg(a));
                    }
                }
            },
            Some(position) => {
                proof {
                    assert(spec_contains(a, '='));
                    lemma_first_eq_pos(a, 0, position as int);
                }
                let prefix = arg.as_str().substring_char(0, position).to_owned();
                let suffix = arg.as_str().substring_char(position + 1, n).to_owned();
                let ghost prev = prepared.deep_view();
                prepared.push(prefix);
                let ghost mid = prepared.deep_view();
                prepared.push(suffix);
                proof {
                    assert(mid =~= prev.push(a.take(first_eq_pos(a, 0))));
                    assert(prepared.deep_view() =~= mid.push(a.skip(first_eq_pos(a, 0) + 1)));
                    assert(prepared.deep_view() =~= before + expand_arg(a));
                }
            },
        }
        proof {
            assert(all.take(idx + 1) =~= all.take(idx as int).push(a));
            lemma_prepare_snoc(all.take(idx as int), a);
        }
        idx = idx + 1;
    }
    proof {
        assert(all.take(all.len() as int) =~= all);
    }
    prepared
}

/// The long or short switches that select the algorithm.
pub open spec fn is_algo_flag(a: Seq<char>) -> bool {
    a == "-a"@ || a == "--algo"@ || a == "--algorithm"@
}

/// The switches that enable per-subdirectory operation.
pub open spec fn is_subdir_flag(a: Seq<char>) -> bool {
    a == "-s"@ || a == "--subdir"@ || a == "--subdirs"@ || a == "--subdirectories"@
}

/// The switches that select the logging level.
pub open spec fn is_loglevel_flag(a: Seq<char>) -> bool {
    a == "--loglevel"@ || a == "--log_level"@ || a == "--log-level"@
}

/// The switches that cap the number of worker threads.
pub open spec fn is_threads_flag(a: Seq<char>) -> bool {
    a == "-T"@ || a == "--threads"@
}

/// The logging level a value argument selects; anything unrecognized
/// falls back to `Info`.
pub open spec fn spec_loglevel_of(v: Seq<char>) -> LogLevel {
    if v == "none"@ || v == "quiet"@ || v == "0"@ {
        LogLevel::Quiet
    } else if v == "info"@ || v == "1"@ {
        LogLevel::Info
    } else if v == "progress"@ {
        LogLevel::Progress
    } else if v == "debug"@ || v == "2"@ {
        LogLevel::Debug
    } else {
        LogLevel::Info
    }
}

/// The options before any argument is read.
pub open spec fn init_state(program_name: Seq<char>) -> OptState {
    OptState {
        help: false,
        version_info: false,
        program_name: program_name,
        algorithm: "sha1"@,
        subdir_mode: false,
        mode: Mode::Filter,
        log_level: LogLevel::Info,
        num_threads: 0,
        folder: "."@,
    }
}

/// The effect of the argument at position `i` on the options.
pub open spec fn step_spec(st: OptState, args: Seq<Seq<char>>, i: int) -> OptState {
    let a = args[i];
    if a.len() > 0 && a[0] == '-' {
        if is_algo_flag(a) {
            OptState { algorithm: lower_of(args[i + 1]), ..st }
        } else if is_subdir_flag(a) {
            OptState { subdir_mode: true, ..st }
        } else if a == "-u"@ || a == "--update"@ {
            OptState { mode: Mode::Update, ..st }
        } else if a == "-v"@ || a == "--verify"@ {
            OptState { mode: Mode::Verify, ..st }
        } else if is_loglevel_flag(a) {
            OptState { log_level: spec_loglevel_of(args[i + 1]), ..st }
        } else if a == "--quiet"@ {
            OptState { log_level: LogLevel::Quiet, ..st }
        } else if is_threads_flag(a) {
            OptState {
                num_threads: text::parse_usize_spec(text::trim_spec(args[i + 1]))->Some_0,
                ..st
            }
        } else if a == "-h"@ || a == "--help"@ {
            OptState { help: true, ..st }
        } else if a == "-V"@ || a == "--version"@ {
            OptState { version_info: true, ..st }
        } else {
            OptState { help: true, ..st }
        }
    } else {
        if i > 0 && (is_loglevel_flag(args[i - 1]) || is_algo_flag(args[i - 1])
            || is_threads_flag(args[i - 1])) {
            st
        } else {
            OptState { folder: a, ..st }
        }
    }
}

/// The options after the first `n` prepared arguments are read.
pub open spec fn fold_spec(args: Seq<Seq<char>>, n: int, init: OptState) -> OptState
    decreases n,
{
    if n <= 0 {
        init
    } else {
        step_spec(fold_spec(args, n - 1, init), args, n - 1)
    }
}

/// Whether the prepared argument at position `i` can be read without
/// aborting: a switch that consumes a value has one, a thread cap parses
/// and fits, and a free value never comes first.
pub open spec fn arg_ok(args: Seq<Seq<char>>, i: int) -> bool {
    let a = args[i];
    if a.len() > 0 && a[0] == '-' {
        &&& is_algo_flag(a) ==> i + 1 < args.len()
        &&& is_loglevel_flag(a) ==> i + 1 < args.len()
        &&& is_threads_flag(a) ==> i + 1 < args.len() && {
            let v = text::parse_usize_spec(text::trim_spec(args[i + 1]));
            v is Some && v->Some_0 <= usize::MAX
        }
    } else {
        i >= 1
    }
}

/// Whether a whole prepared command line can be read without aborting.
pub open spec fn parse_ok(args: Seq<Seq<char>>) -> bool {
    forall|i: int| 0 <= i < args.len() ==> #[trigger] arg_ok(args, i)
}

fn matches_lit(a: &String, lit: &str) -> (r: bool)
    ensures
        r == (a@ == lit@),
{
    text::str_eq(a.as_str(), lit)
}

fn loglevel_from(v: &String) -> (r: LogLevel)
    ensures
        r == spec_loglevel_of(v@),
{
    if matches_lit(v, "none") || matches_lit(v, "quiet") || matches_lit(v, "0") {
        LogLevel::Quiet
    } else if matches_lit(v, "info") || matches_lit(v, "1") {
        LogLevel::Info
    } else if matches_lit(v, "progress") {
        LogLevel::Progress
    } else if matches_lit(v, "debug") || matches_lit(v, "2") {
        LogLevel::Debug
    } else {
        LogLevel::Info
    }
}

impl Options {
    /// Builds the options that a command line selects: the program name,
    /// then every prepared argument read left to right as `step_spec`
    /// says. Inputs on which parsing aborts the run - a switch missing
    /// its value, a thread cap that does not parse or fit, a free value
    /// in first position - are excluded by `parse_ok`; callers guard them.
    pub fn new(args: Vec<String>) -> (opts: Options)
        requires
            args.deep_view().len() >= 1,
            parse_ok(prepare_spec(args.deep_view().drop_first())),
        ensures
            ({
                let prepared = prepare_spec(args.deep_view().drop_first());
                opts@ == fold_spec(
                    prepared,
                    prepared.len() as int,
                    init_state(args.deep_view()[0]),
                )
            }),
    {
        let ghost all = args.deep_view();
        let program_name = args[0].clone();
        let mut opts = Options {
            help: false,
            version_info: false,
            program_name,
            algorithm: String::from_str("sha1"),
            subdir_mode: false,
            mode: Mode::Filter,
            log_level: LogLevel::Info,
            num_threads: 0,
            folder: String::from_str("."),
        };
        let ghost init = init_state(all[0]);
        proof {
            assert(opts@ == init);
        }
        let mut tail: Vec<String> = Vec::new();
        let mut t: usize = 1;
        proof {
            assert(tail.deep_view() =~= all.subrange(1, 1));
        }
        while t < args.len()
            invariant
                1 <= t <= args@.len(),
                all == args.deep_view(),
                all.len() == args@.len(),
                tail.deep_view() == all.subrange(1, t as int),
            decreases args@.len() - t,
        {
            let ghost prev = tail.deep_view();
            tail.push(args[t].clone());
            proof {
                assert(tail.deep_view() =~= prev.push(all[t as int]));
                assert(tail.deep_view() =~= all.subrange(1, t + 1));
            }
            t = t + 1;
        }
        proof {
            assert(all.subrange(1, all.len() as int) =~= all.drop_first());
        }
        let prepared = prepare_args(tail);
        let ghost p = prepared.deep_view();
        proof {
            assert(p == prepare_spec(all.drop_first()));
            assert(parse_ok(p));
        }
        let mut i: usize = 0;
        while i < prepared.len()
            invariant
                i <= prepared@.len(),
                p == prepared.deep_view(),
                p.len() == prepared@.len(),
                parse_ok(p),
                forall|j: int| 0 <= j < p.len() ==> p[j] == prepared@[j]@,
                opts@ == fold_spec(p, i as int, init),
            decreases prepared@.len() - i,
        {
            let arg = &prepared[i];
            let ghost st = fold_spec(p, i as int, init);
            proof {
                assert(arg_ok(p, i as int));
            }
            let n = arg.as_str().unicode_len();
            if n > 0 && arg.as_str().get_char(0) == '-' {
                if matches_lit(arg, "-a") || matches_lit(arg, "--algo") || matches_lit(
                    arg,
                    "--algorithm",
                ) {
                    opts.algorithm = lowercase(&prepared[i + 1]);
                } else if matches_lit(arg, "-s") || matches_lit(arg, "--subdir") || matches_lit(
                    arg,
                    "--subdirs",
                ) || matches_lit(arg, "--subdirectories") {
                    opts.subdir_mode = true;
                } else if matches_lit(arg, "-u") || matches_lit(arg, "--update") {
                    opts.mode = Mode::Update;
                } else if matches_lit(arg, "-v") || matches_lit(arg, "--verify") {
                    opts.mode = Mode::Verify;
                } else if matches_lit(arg, "--loglevel") || matches_lit(arg, "--log_level")
                    || matches_lit(arg, "--log-level") {
                    opts.log_level = loglevel_from(&prepared[i + 1]);
                } else if matches_lit(arg, "--quiet") {
                    opts.log_level = LogLevel::Quiet;
                } else if matches_lit(arg, "-T") || matches_lit(arg, "--threads") {
                    let trimmed = text::trim_ws(prepared[i + 1].as_str());
                    match text::parse_usize(trimmed) {
                        Some(v) => {
                            opts.num_threads = v;
                        },
                        None => {
                            proof {
                                assert(false);
                            }
                        },
                    }
                } else if matches_lit(arg, "-h") || matches_lit(arg, "--help") {
                    opts.help = true;
                } else if matches_lit(arg, "-V") || matches_lit(arg, "--version") {
                    opts.version_info = true;
                } else {
                    opts.help = true;
                }
            } else {
                if i == 0 {
                    proof {
                        assert(false);
                    }
                } else {
                    let previous = &prepared[i - 1];
                    if matches_lit(previous, "--loglevel") || matches_lit(previous, "--log_level")
                        || matches_lit(previous, "--log-level") || matches_lit(previous, "-a")
                        || matches_lit(previous, "--algo") || matches_lit(previous, "--algorithm")
                        || matches_lit(previous, "-T") || matches_lit(previous, "--threads") {
                    } else {
                        opts.folder = arg.clone();
                    }
                }
            }
            proof {
                assert(opts@ == step_spec(st, p, i as int));
                assert(opts@ == fold_spec(p, i + 1, init));
            }
            i = i + 1;
        }
        opts
    }
}

} // verus!
