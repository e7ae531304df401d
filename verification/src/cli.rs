//! What the command line asks for.

use crate::text::{
    halves, join_from, joined, number, pieces, read_number, same_text, split_once, split_text,
    texts,
};
use vstd::prelude::*;

verus! {

/// The subcommands.
#[derive(Clone, Copy, Debug, PartialEq, Eq, Structural)]
pub enum Command {
    /// Boot and snapshot a template VM.
    Template,
    /// Run the fork benchmarks.
    Bench,
    /// Start the API server.
    Serve,
    /// Execute one command in a fork.
    TestExec,
    /// Say how the program is used.
    Help,
}

/// A subcommand that lacks arguments.
#[derive(Clone, Copy, Debug, PartialEq, Eq, Structural)]
pub enum UsageError {
    Template,
    Bench,
    TestExec,
    Serve,
}

impl UsageError {
    /// How the subcommand is used.
    pub open spec fn usage(self) -> Seq<char> {
        match self {
            UsageError::Template =>
                "Usage: zeroboot template <kernel> <rootfs> <workdir> [wait_secs] [init_path]"@,
            UsageError::Bench => "Usage: zeroboot bench <workdir>"@,
            UsageError::TestExec => "Usage: zeroboot test-exec <workdir> <command>"@,
            UsageError::Serve => "Usage: zeroboot serve <workdir>[,lang:workdir2,...] [port]"@,
        }
    }

    /// How the subcommand is used, in words.
    pub fn message(&self) -> (text: &'static str)
        ensures
            text@ == self.usage(),
    {
        match self {
            UsageError::Template => {
                "Usage: zeroboot template <kernel> <rootfs> <workdir> [wait_secs] [init_path]"
            },
            UsageError::Bench => "Usage: zeroboot bench <workdir>",
            UsageError::TestExec => "Usage: zeroboot test-exec <workdir> <command>",
            UsageError::Serve => "Usage: zeroboot serve <workdir>[,lang:workdir2,...] [port]",
        }
    }
}

/// The subcommand that the arguments of the program, its own name first, ask for.
pub open spec fn command_of(args: Seq<Seq<char>>) -> Command {
    if args.len() < 2 {
        Command::Help
    } else if args[1] == "template"@ {
        Command::Template
    } else if args[1] == "bench"@ || args[1] == "fork-bench"@ {
        Command::Bench
    } else if args[1] == "serve"@ {
        Command::Serve
    } else if args[1] == "test-exec"@ {
        Command::TestExec
    } else {
        Command::Help
    }
}

/// Picks the subcommand by the first argument behind the program's name.
pub fn parse_command(args: &[String]) -> (c: Command)
    ensures
        c == command_of(texts(args@)),
{
    if args.len() < 2 {
        return Command::Help;
    }
    let name: &str = args[1].as_str();
    assert(texts(args@)[1] == name@);
    if same_text(name, "template") {
        Command::Template
    } else if same_text(name, "bench") || same_text(name, "fork-bench") {
        Command::Bench
    } else if same_text(name, "serve") {
        Command::Serve
    } else if same_text(name, "test-exec") {
        Command::TestExec
    } else {
        Command::Help
    }
}

/// The number of at most `max` that argument `i` spells, if there is such an argument.
pub open spec fn number_arg(args: Seq<Seq<char>>, i: int, max: int) -> Option<int> {
    if 0 <= i < args.len() {
        number(args[i], max)
    } else {
        None
    }
}

/// The number, or `default` where there is none.
pub open spec fn or_default(n: Option<int>, default: int) -> int {
    match n {
        Some(v) => v,
        None => default,
    }
}

/// Reads argument `i` as a number of at most `max`.
fn read_number_arg(args: &[String], i: usize, max: u64) -> (res: Option<u64>)
    ensures
        match res {
            Some(v) => number_arg(texts(args@), i as int, max as int) == Some(v as int),
            None => number_arg(texts(args@), i as int, max as int) is None,
        },
{
    if i < args.len() {
        assert(texts(args@)[i as int] == args@[i as int]@);
        read_number(args[i].as_str(), max)
    } else {
        None
    }
}

/// What `template` is to do.
#[derive(Debug, PartialEq, Eq)]
pub struct TemplateOptions {
    pub kernel: String,
    pub rootfs: String,
    pub workdir: String,
    pub wait_secs: u64,
    pub init_path: String,
    pub mem_mib: u32,
}

/// The memory of a template VM in MiB: the sixth argument, else the environment's setting,
/// either only where it spells a 32-bit number, else 512.
pub open spec fn template_mem_mib(args: Seq<Seq<char>>, env: Option<Seq<char>>) -> int {
    match number_arg(args, 5, u32::MAX as int) {
        Some(v) => v,
        None => match env {
            Some(text) => or_default(number(text, u32::MAX as int), 512),
            None => 512,
        },
    }
}

/// `o` is what `template` with arguments `args` is to do: kernel, root file system and working
/// directory as given, a wait of 3 seconds and `/init.py` unless the arguments say otherwise.
pub open spec fn template_asks(
    args: Seq<Seq<char>>,
    env: Option<Seq<char>>,
    o: TemplateOptions,
) -> bool {
    &&& o.kernel@ == args[0]
    &&& o.rootfs@ == args[1]
    &&& o.workdir@ == args[2]
    &&& o.wait_secs == or_default(number_arg(args, 3, u64::MAX as int), 3)
    &&& o.init_path@ == if args.len() > 4 {
        args[4]
    } else {
        "/init.py"@
    }
    &&& o.mem_mib == template_mem_mib(args, env)
}

/// Reads the arguments of `template`. `env_mem` is the environment's memory setting, if it has
/// one.
pub fn template_options(args: &[String], env_mem: Option<String>) -> (res: Result<
    TemplateOptions,
    UsageError,
>)
    ensures
        match res {
            Ok(o) => args@.len() >= 3 && template_asks(
                texts(args@),
                match env_mem {
                    Some(text) => Some(text@),
                    None => None,
                },
                o,
            ),
            Err(e) => args@.len() < 3 && e == UsageError::Template,
        },
{
    if args.len() < 3 {
        return Err(UsageError::Template);
    }
    let wait_secs: u64 = match read_number_arg(args, 3, u64::MAX) {
        Some(v) => v,
        None => 3,
    };
    let init_path: String = if args.len() > 4 {
        args[4].clone()
    } else {
        "/init.py".to_owned()
    };
    let mem_mib: u32 = match read_number_arg(args, 5, u32::MAX as u64) {
        Some(v) => v as u32,
        None => match &env_mem {
            Some(text) => match read_number(text.as_str(), u32::MAX as u64) {
                Some(v) => v as u32,
                None => 512,
            },
            None => 512,
        },
    };
    Ok(
        TemplateOptions {
            kernel: args[0].clone(),
            rootfs: args[1].clone(),
            workdir: args[2].clone(),
            wait_secs,
            init_path,
            mem_mib,
        },
    )
}

/// What `test-exec` is to do.
#[derive(Debug, PartialEq, Eq)]
pub struct ExecRequest {
    pub workdir: String,
    pub command: String,
}

/// Reads the arguments of `test-exec`: the working directory, and the words of the command,
/// which are joined by single spaces.
pub fn exec_request(args: &[String]) -> (res: Result<ExecRequest, UsageError>)
    ensures
        match res {
            Ok(r) => {
                &&& args@.len() >= 2
                &&& r.workdir@ == args@[0]@
                &&& r.command@ == joined(texts(args@.skip(1)), " "@)
            },
            Err(e) => args@.len() < 2 && e == UsageError::TestExec,
        },
{
    if args.len() < 2 {
        return Err(UsageError::TestExec);
    }
    Ok(ExecRequest { workdir: args[0].clone(), command: join_from(args, 1, " ") })
}

/// The line that hands a command to the guest's shell.
pub fn serial_line(command: &str) -> (line: String)
    ensures
        line@ == command@ + "\n"@,
{
    let mut line: String = command.to_owned();
    line.append("\n");
    line
}

/// Reads the arguments of `bench`: the working directory.
pub fn bench_workdir(args: &[String]) -> (res: Result<String, UsageError>)
    ensures
        match res {
            Ok(workdir) => args@.len() >= 1 && workdir@ == args@[0]@,
            Err(e) => args@.len() < 1 && e == UsageError::Bench,
        },
{
    if args.len() < 1 {
        return Err(UsageError::Bench);
    }
    Ok(args[0].clone())
}

/// A template to serve: the language it runs and the working directory that holds it.
#[derive(Debug, PartialEq, Eq)]
pub struct TemplateSpec {
    pub lang: String,
    pub dir: String,
}

/// The language and directory that one entry of the template list names: what stands before and
/// after its first colon, or Python and the entry as a whole where it has no colon.
pub open spec fn spec_of(entry: Seq<char>) -> (Seq<char>, Seq<char>) {
    match halves(entry, ':') {
        Some(pair) => pair,
        None => ("python"@, entry),
    }
}

/// Reads one entry of the template list.
pub fn template_spec(entry: &str) -> (spec: TemplateSpec)
    ensures
        (spec.lang@, spec.dir@) == spec_of(entry@),
{
    match split_once(entry, ':') {
        Some(pair) => TemplateSpec { lang: pair.0, dir: pair.1 },
        None => TemplateSpec { lang: "python".to_owned(), dir: entry.to_owned() },
    }
}

/// What `serve` is to do.
#[derive(Debug, PartialEq, Eq)]
pub struct ServeOptions {
    pub port: u16,
    pub templates: Vec<TemplateSpec>,
}

/// `list` holds what the entries of a comma-separated template list name, in its order.
pub open spec fn template_list(text: Seq<char>, list: Seq<TemplateSpec>) -> bool {
    let entries = pieces(text, ',', 0);
    &&& list.len() == entries.len()
    &&& forall|i: int|
        0 <= i < list.len() ==> ((#[trigger] list[i]).lang@, list[i].dir@) == spec_of(entries[i])
}

/// Reads a comma-separated template list.
pub fn parse_template_list(text: &str) -> (list: Vec<TemplateSpec>)
    ensures
        template_list(text@, list@),
{
    let entries: Vec<String> = split_text(text, ',');
    let mut list: Vec<TemplateSpec> = Vec::new();
    let mut i: usize = 0;
    while i < entries.len()
        invariant
            i <= entries@.len(),
            list@.len() == i,
            texts(entries@) == pieces(text@, ',', 0),
            forall|k: int|
                0 <= k < i ==> ((#[trigger] list@[k]).lang@, list@[k].dir@) == spec_of(
                    pieces(text@, ',', 0)[k],
                ),
        decreases entries@.len() - i,
    {
        assert(texts(entries@)[i as int] == entries@[i as int]@);
        list.push(template_spec(entries[i].as_str()));
        i = i + 1;
    }
    assert(texts(entries@).len() == entries@.len());
    list
}

/// Reads the arguments of `serve`: the template list, and the port, which is 8080 unless the
/// second argument spells a 16-bit number.
pub fn serve_options(args: &[String]) -> (res: Result<ServeOptions, UsageError>)
    ensures
        match res {
            Ok(o) => {
                &&& args@.len() >= 1
                &&& o.port == or_default(number_arg(texts(args@), 1, u16::MAX as int), 8080)
                &&& template_list(args@[0]@, o.templates@)
            },
            Err(e) => args@.len() < 1 && e == UsageError::Serve,
        },
{
    if args.len() < 1 {
        return Err(UsageError::Serve);
    }
    let port: u16 = match read_number_arg(args, 1, u16::MAX as u64) {
        Some(v) => v as u16,
        None => 8080,
    };
    Ok(ServeOptions { port, templates: parse_template_list(args[0].as_str()) })
}

} // verus!
