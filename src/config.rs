use vstd::prelude::*;

verus! {

/// The text printed for `-h` / `--help`.
pub const HELP: &'static str = "\
Usage: minigrep [PATTERN] [FILE_PATH]
Search for a pattern in the given file

Flags:
    -h, --help          display this help message
    -i, --ignore_case   ignore case distinctions in patterns
";

/// The error for too few arguments.
pub const USAGE: &'static str = "minigrep [PATTERN] [FILE_PATH]";

/// The error for more than two positional arguments after the first.
pub const TOO_MANY_PARAMETERS: &'static str = "Too many parameters";

/// What one invocation asks for.
#[derive(PartialEq, Debug)]
pub struct Config {
    pub query: String,
    pub file_path: String,
    pub ignore_case: bool,
    pub help: bool,
}

/// The mathematical value of a `Config`.
pub struct ConfigView {
    pub query: Seq<char>,
    pub file_path: Seq<char>,
    pub ignore_case: bool,
    pub help: bool,
}

impl View for Config {
    type V = ConfigView;

    open spec fn view(&self) -> ConfigView {
        ConfigView {
            query: self.query@,
            file_path: self.file_path@,
            ignore_case: self.ignore_case,
            help: self.help,
        }
    }
}

/// `-h` or `--help`.
pub open spec fn is_help_flag(a: Seq<char>) -> bool {
    a == "-h"@ || a == "--help"@
}

/// `-i` or `--ignore_case`.
pub open spec fn is_ignore_case_flag(a: Seq<char>) -> bool {
    a == "-i"@ || a == "--ignore_case"@
}

/// The configuration that asks for the help text.
pub open spec fn help_view() -> ConfigView {
    ConfigView { query: Seq::empty(), file_path: Seq::empty(), ignore_case: false, help: true }
}

/// Where the scan of the arguments stands.
pub enum Scan {
    /// A help flag was met.
    Help,
    /// A fourth positional argument was met.
    TooMany,
    /// Still reading; `taken` positional arguments were seen so far (the
    /// first is discarded, the second is the query, the third the path).
    Reading { query: Seq<char>, file_path: Seq<char>, ignore_case: bool, taken: nat },
}

/// The scan after one more argument.
pub open spec fn step(st: Scan, arg: Seq<char>) -> Scan {
    match st {
        Scan::Reading { query, file_path, ignore_case, taken } => {
            if is_help_flag(arg) {
                Scan::Help
            } else if is_ignore_case_flag(arg) {
                Scan::Reading { query, file_path, ignore_case: true, taken }
            } else if taken == 0 {
                Scan::Reading { query, file_path, ignore_case, taken: 1 }
            } else if taken == 1 {
                Scan::Reading { query: arg, file_path, ignore_case, taken: 2 }
            } else if taken == 2 {
                Scan::Reading { query, file_path: arg, ignore_case, taken: 3 }
            } else {
                Scan::TooMany
            }
        },
        _ => st,
    }
}

/// The scan over all of `args`, from the first.
pub open spec fn scan(args: Seq<Seq<char>>) -> Scan
    decreases args.len(),
{
    if args.len() == 0 {
        Scan::Reading { query: Seq::empty(), file_path: Seq::empty(), ignore_case: false, taken: 0 }
    } else {
        step(scan(args.drop_last()), args.last())
    }
}

/// The outcome of reading the argument list `args` (program name first):
/// the configuration, or the error message.
pub open spec fn parse(args: Seq<Seq<char>>) -> Result<ConfigView, Seq<char>> {
    if args.len() == 2 && is_help_flag(args[1]) {
        Ok(help_view())
    } else if args.len() < 3 {
        Err(USAGE@)
    } else {
        match scan(args) {
            Scan::Help => Ok(help_view()),
            Scan::TooMany => Err(TOO_MANY_PARAMETERS@),
            Scan::Reading { query, file_path, ignore_case, .. } => Ok(
                ConfigView { query, file_path, ignore_case, help: false },
            ),
        }
    }
}

/// The views of a sequence of strings.
pub open spec fn arg_views(args: Seq<String>) -> Seq<Seq<char>> {
    args.map_values(|a: String| a@)
}

/// Whether `arg` asks for the help text.
fn is_help(arg: &String) -> (r: bool)
    ensures
        r == is_help_flag(arg@),
{
    *arg == "-h".to_owned() || *arg == "--help".to_owned()
}

/// Whether `arg` asks to ignore case.
fn is_ignore_case(arg: &String) -> (r: bool)
    ensures
        r == is_ignore_case_flag(arg@),
{
    *arg == "-i".to_owned() || *arg == "--ignore_case".to_owned()
}

/// The configuration that asks for the help text.
fn help_config() -> (c: Config)
    ensures
        c@ == help_view(),
{
    Config { query: String::new(), file_path: String::new(), ignore_case: false, help: true }
}

impl Config {
    /// Reads the argument list `args`, whose first entry is the program name.
    ///
    /// A lone `-h`/`--help` after the program name, or a help flag met
    /// anywhere in the scan, gives the help configuration. Fewer than three
    /// arguments otherwise is the usage error. Flags `-i`/`--ignore_case` set
    /// `ignore_case`; the other arguments fill, in order, a discarded slot,
    /// the query and the file path, and a fourth one is the error for too
    /// many parameters.
    pub fn new(args: &[String]) -> (r: Result<Config, &'static str>)
        ensures
            match r {
                Ok(c) => parse(arg_views(args@)) == Ok::<ConfigView, Seq<char>>(c@),
                Err(e) => parse(arg_views(args@)) == Err::<ConfigView, Seq<char>>(e@),
            },
    {
        let ghost views = arg_views(args@);
        if args.len() == 2 && is_help(&args[1]) {
            return Ok(help_config());
        }
        if args.len() < 3 {
            return Err(USAGE);
        }
        let mut query = String::new();
        let mut file_path = String::new();
        let mut ignore_case = false;
        let mut taken: usize = 0;
        let mut i: usize = 0;
        assert(views.take(0) =~= Seq::<Seq<char>>::empty());
        while i < args.len()
            invariant
                i <= args.len(),
                args.len() >= 3,
                views == arg_views(args@),
                taken <= 3,
                scan(views.take(i as int)) == (Scan::Reading {
                    query: query@,
                    file_path: file_path@,
                    ignore_case,
                    taken: taken as nat,
                }),
            decreases args.len() - i,
        {
            let arg = &args[i];
            assert(views.take(i + 1).drop_last() =~= views.take(i as int));
            assert(views.take(i + 1).last() == arg@);
            if is_help(arg) {
                proof {
                    lemma_scan_settled(views, i + 1);
                }
                return Ok(help_config());
            } else if is_ignore_case(arg) {
                ignore_case = true;
            } else if taken == 0 {
                taken = 1;
            } else if taken == 1 {
                query = arg.clone();
                taken = 2;
            } else if taken == 2 {
                file_path = arg.clone();
                taken = 3;
            } else {
                proof {
                    lemma_scan_settled(views, i + 1);
                }
                return Err(TOO_MANY_PARAMETERS);
            }
            i = i + 1;
        }
        assert(views.take(args.len() as int) =~= views);
        Ok(Config { query, file_path, ignore_case, help: false })
    }
}

/// Once the scan has stopped at a help flag or at too many arguments, the
/// arguments after that leave it as it is.
proof fn lemma_scan_settled(args: Seq<Seq<char>>, k: int)
    requires
        0 <= k <= args.len(),
        !(scan(args.take(k)) is Reading),
    ensures
        scan(args) == scan(args.take(k)),
    decreases args.len() - k,
{
    if k < args.len() {
        assert(args.take(k + 1).drop_last() =~= args.take(k));
        lemma_scan_settled(args, k + 1);
    } else {
        assert(args.take(k) =~= args);
    }
}

} // verus!
