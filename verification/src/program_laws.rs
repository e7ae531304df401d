//! What the command line asks for, and what the benchmarks and the API server compute, said of
//! whole calls.

use crate::bench::{
    echo_marker, judge_isolation, percentiles, tally_echo, EchoTally, Isolation, Percentiles,
    OVERWRITE, PROBE_OFFSET, SECRET,
};
use crate::cli::{
    bench_workdir, exec_request, parse_command, parse_template_list, serial_line, serve_options,
    template_options, template_spec, Command, ExecRequest, ServeOptions, TemplateOptions,
    TemplateSpec, UsageError,
};
use crate::keys::{api_keys, api_keys_path, json_strings, keys_or_none};
use crate::layout::VmStateError;
use crate::server::{
    collect_templates, law_last_template_serves, law_only_listed_languages_are_served,
    listen_address, TemplateTable,
};
use crate::status::{labelled_line, rss_kb};
use crate::text::{
    contains_text, decimal_text, halves, law_halves_join_back, law_separator_gives_halves,
    starts_with, texts,
};
use crate::text_laws::{
    digits_only, free_of, gaps_fit, lemma_decimal_text_is_plain, lemma_joined_is_strung,
    lemma_number_is_spelled, lemma_pieces_of_strung, lemma_text_is_held, lemma_word_of_spaced,
    spaced, spelled, strung, worth,
};
use vstd::prelude::*;

verus! {

/// The first argument behind the program's name alone picks the subcommand: each has its own
/// name, the benchmarks have two, and any other name, or none, asks for help.
pub proof fn law_name_picks_command(args: &[String], c: Command)
    requires
        call_ensures(parse_command, (args,), c),
    ensures
        c == Command::Template <==> args@.len() >= 2 && args@[1]@ == "template"@,
        c == Command::Bench <==> args@.len() >= 2 && (args@[1]@ == "bench"@ || args@[1]@
            == "fork-bench"@),
        c == Command::Serve <==> args@.len() >= 2 && args@[1]@ == "serve"@,
        c == Command::TestExec <==> args@.len() >= 2 && args@[1]@ == "test-exec"@,
        call_requires(parse_command, (args,)),
{
    reveal_strlit("template");
    reveal_strlit("bench");
    reveal_strlit("fork-bench");
    reveal_strlit("serve");
    reveal_strlit("test-exec");
    assert("bench"@[0] != "serve"@[0]);
    if args@.len() >= 2 {
        assert(texts(args@)[1] == args@[1]@);
    }
}

/// `v` is the number that `text` spells, where it spells one of at most `max`, and `default`
/// where it does not.
pub open spec fn spelled_or(text: Seq<char>, max: int, default: int, v: int) -> bool {
    match spelled(text) {
        Some(n) => v == if n <= max {
            n
        } else {
            default
        },
        None => v == default,
    }
}

/// With three arguments or more `template` takes the first three as they are. The fourth is the
/// wait in seconds, 3 where it is missing or no number; the fifth is the program to start,
/// `/init.py` only where there is no fifth; the sixth is the memory in MiB. Fewer arguments are
/// refused.
pub proof fn law_template_takes_arguments_by_place(
    args: &[String],
    env_mem: Option<String>,
    res: Result<TemplateOptions, UsageError>,
)
    requires
        call_ensures(template_options, (args, env_mem), res),
    ensures
        args@.len() < 3 ==> res == Err::<TemplateOptions, UsageError>(UsageError::Template),
        args@.len() >= 3 ==> (res matches Ok(o) && {
            &&& o.kernel@ == args@[0]@
            &&& o.rootfs@ == args@[1]@
            &&& o.workdir@ == args@[2]@
            &&& args@.len() >= 5 ==> o.init_path@ == args@[4]@
            &&& args@.len() <= 4 ==> o.init_path@ == "/init.py"@
            &&& args@.len() >= 4 ==> spelled_or(args@[3]@, u64::MAX as int, 3, o.wait_secs as int)
            &&& args@.len() == 3 ==> o.wait_secs == 3
        }),
        call_requires(template_options, (args, env_mem)),
{
    if args@.len() >= 4 {
        assert(texts(args@)[3] == args@[3]@);
        lemma_number_is_spelled(args@[3]@, u64::MAX as int);
    }
    if args@.len() >= 3 {
        assert(texts(args@)[0] == args@[0]@ && texts(args@)[1] == args@[1]@ && texts(args@)[2]
            == args@[2]@);
    }
    if args@.len() >= 5 {
        assert(texts(args@)[4] == args@[4]@);
    }
}

/// The memory of a template VM is what the sixth argument spells as a 32-bit number; where it
/// spells none, or is missing, what the environment spells; where that spells none either, 512.
pub proof fn law_template_memory_falls_back(
    args: &[String],
    env_mem: Option<String>,
    o: TemplateOptions,
)
    requires
        call_ensures(template_options, (args, env_mem), Ok::<TemplateOptions, UsageError>(o)),
    ensures
        args@.len() >= 6 && (spelled(args@[5]@) matches Some(v) && v <= u32::MAX) ==> Some(
            o.mem_mib as int,
        ) == spelled(args@[5]@),
        args@.len() < 6 || (spelled(args@[5]@) matches Some(v) ==> u32::MAX < v) ==> match env_mem {
            Some(text) => spelled_or(text@, u32::MAX as int, 512, o.mem_mib as int),
            None => o.mem_mib == 512,
        },
{
    if args@.len() >= 6 {
        assert(texts(args@)[5] == args@[5]@);
        lemma_number_is_spelled(args@[5]@, u32::MAX as int);
    }
    if let Some(text) = env_mem {
        lemma_number_is_spelled(text@, u32::MAX as int);
    }
}

/// `test-exec` runs in the directory that its first argument names what the others spell with
/// single spaces between them. Fewer than two arguments are refused.
pub proof fn law_exec_request_spaces_words(
    args: &[String],
    res: Result<ExecRequest, UsageError>,
)
    requires
        call_ensures(exec_request, (args,), res),
    ensures
        args@.len() < 2 ==> res == Err::<ExecRequest, UsageError>(UsageError::TestExec),
        args@.len() >= 2 ==> (res matches Ok(r) && {
            &&& r.workdir@ == args@[0]@
            &&& r.command@ == strung(
                Seq::new((args@.len() - 1) as nat, |k: int| args@[k + 1]@),
                seq![' '],
            )
        }),
        call_requires(exec_request, (args,)),
{
    if args@.len() >= 2 {
        let words = Seq::new((args@.len() - 1) as nat, |k: int| args@[k + 1]@);
        assert(texts(args@.skip(1)) =~= words);
        reveal_strlit(" ");
        assert(" "@ =~= seq![' ']);
        lemma_joined_is_strung(words, " "@);
    }
}

/// A command is handed to the guest as it is, ended by one line feed.
pub proof fn law_serial_line_ends_command(command: &str, line: String)
    requires
        call_ensures(serial_line, (command,), line),
    ensures
        line@ == command@.push('\n'),
        call_requires(serial_line, (command,)),
{
    reveal_strlit("\n");
    assert(line@ =~= command@.push('\n'));
}

/// `bench` runs in the directory that its first argument names, and is refused without one.
pub proof fn law_bench_takes_first_argument(args: &[String], res: Result<String, UsageError>)
    requires
        call_ensures(bench_workdir, (args,), res),
    ensures
        args@.len() == 0 ==> res == Err::<String, UsageError>(UsageError::Bench),
        args@.len() > 0 ==> (res matches Ok(dir) && dir@ == args@[0]@),
        call_requires(bench_workdir, (args,)),
{
}

/// `lang` and `dir` are what the entry `lang:dir`, or `dir` alone, names: the language ends at the
/// first colon, and is Python where there is no colon.
pub open spec fn names(entry: Seq<char>, lang: Seq<char>, dir: Seq<char>) -> bool {
    ||| entry == lang.push(':') + dir && !lang.contains(':')
    ||| entry == dir && !entry.contains(':') && lang == seq!['p', 'y', 't', 'h', 'o', 'n']
}

/// A template entry is taken apart into what it was put together from.
pub proof fn law_template_spec_names_parts(entry: &str, spec: TemplateSpec)
    requires
        call_ensures(template_spec, (entry,), spec),
    ensures
        names(entry@, spec.lang@, spec.dir@),
        call_requires(template_spec, (entry,)),
{
    lemma_spec_names_parts(entry@, spec.lang@, spec.dir@);
}

proof fn lemma_spec_names_parts(entry: Seq<char>, lang: Seq<char>, dir: Seq<char>)
    requires
        (lang, dir) == crate::cli::spec_of(entry),
    ensures
        names(entry, lang, dir),
{
    law_separator_gives_halves(entry, ':');
    match halves(entry, ':') {
        Some(pair) => {
            law_halves_join_back(entry, ':', pair.0, pair.1);
            assert(lang.push(':') + dir =~= lang + seq![':'] + dir);
        },
        None => {
            reveal_strlit("python");
            assert(lang =~= seq!['p', 'y', 't', 'h', 'o', 'n']);
        },
    }
}

/// A template list of entries without commas, put together with a comma between each two, is
/// read as what its entries name, in order.
pub proof fn law_template_list_names_entries(
    text: &str,
    entries: Seq<Seq<char>>,
    list: Vec<TemplateSpec>,
)
    requires
        entries.len() > 0,
        free_of(entries, ','),
        text@ == strung(entries, seq![',']),
        call_ensures(parse_template_list, (text,), list),
    ensures
        list@.len() == entries.len(),
        forall|k: int|
            0 <= k < entries.len() ==> names(
                entries[k],
                (#[trigger] list@[k]).lang@,
                list@[k].dir@,
            ),
        call_requires(parse_template_list, (text,)),
{
    lemma_list_names_entries(text@, entries, list@);
}

proof fn lemma_list_names_entries(
    text: Seq<char>,
    entries: Seq<Seq<char>>,
    list: Seq<TemplateSpec>,
)
    requires
        entries.len() > 0,
        free_of(entries, ','),
        text == strung(entries, seq![',']),
        crate::cli::template_list(text, list),
    ensures
        list.len() == entries.len(),
        forall|k: int|
            0 <= k < entries.len() ==> names(entries[k], (#[trigger] list[k]).lang@, list[k].dir@),
{
    lemma_pieces_of_strung(text, ',', entries);
    assert forall|k: int| 0 <= k < entries.len() implies names(
        entries[k],
        (#[trigger] list[k]).lang@,
        list[k].dir@,
    ) by {
        lemma_spec_names_parts(entries[k], list[k].lang@, list[k].dir@);
    }
}

/// `serve` serves the templates of its first argument on the port that its second spells as a
/// 16-bit number, 8080 where it spells none or is missing. Without arguments it is refused.
pub proof fn law_serve_takes_list_and_port(
    args: &[String],
    entries: Seq<Seq<char>>,
    res: Result<ServeOptions, UsageError>,
)
    requires
        call_ensures(serve_options, (args,), res),
    ensures
        args@.len() == 0 ==> res == Err::<ServeOptions, UsageError>(UsageError::Serve),
        args@.len() > 0 ==> (res matches Ok(o) && {
            &&& args@.len() == 1 ==> o.port == 8080
            &&& args@.len() >= 2 ==> spelled_or(args@[1]@, u16::MAX as int, 8080, o.port as int)
            &&& entries.len() > 0 && free_of(entries, ',') && args@[0]@ == strung(
                entries,
                seq![','],
            ) ==> o.templates@.len() == entries.len() && forall|k: int|
                0 <= k < entries.len() ==> names(
                    entries[k],
                    (#[trigger] o.templates@[k]).lang@,
                    o.templates@[k].dir@,
                )
        }),
        call_requires(serve_options, (args,)),
{
    if args@.len() >= 2 {
        assert(texts(args@)[1] == args@[1]@);
        lemma_number_is_spelled(args@[1]@, u16::MAX as int);
    }
    if let Ok(o) = res {
        if entries.len() > 0 && free_of(entries, ',') && args@[0]@ == strung(entries, seq![',']) {
            lemma_list_names_entries(args@[0]@, entries, o.templates@);
        }
    }
}

/// Each refusal says how its own subcommand is used.
pub proof fn law_refusals_name_their_command(e: UsageError, text: &'static str)
    requires
        call_ensures(UsageError::message, (&e,), text),
    ensures
        text@ == match e {
            UsageError::Template =>
                "Usage: zeroboot template <kernel> <rootfs> <workdir> [wait_secs] [init_path]"@,
            UsageError::Bench => "Usage: zeroboot bench <workdir>"@,
            UsageError::TestExec => "Usage: zeroboot test-exec <workdir> <command>"@,
            UsageError::Serve => "Usage: zeroboot serve <workdir>[,lang:workdir2,...] [port]"@,
        },
        call_requires(UsageError::message, (&e,)),
{
}

/// The refusal of a file names the base address that was looked for.
pub proof fn law_refused_file_names_base_address(e: VmStateError, text: &'static str)
    requires
        call_ensures(VmStateError::message, (&e,), text),
    ensures
        text@ == "cannot detect vmstate layout: IOAPIC base address 0xFEC00000 not found"@,
        call_requires(VmStateError::message, (&e,)),
{
}

/// The keys are those of the file's list, one by one, and none where there is no list.
pub proof fn law_keys_are_the_list(list: Option<Vec<String>>, keys: Vec<String>)
    requires
        call_ensures(keys_or_none, (list,), keys),
    ensures
        match list {
            Some(l) => keys@.len() == l@.len() && forall|k: int|
                0 <= k < l@.len() ==> (#[trigger] keys@[k])@ == l@[k]@,
            None => keys@.len() == 0,
        },
        call_requires(keys_or_none, (list,)),
{
    assert(texts(keys@).len() == keys@.len());
    if let Some(l) = list {
        assert(texts(l@).len() == l@.len());
        assert forall|k: int| 0 <= k < l@.len() implies (#[trigger] keys@[k])@ == l@[k]@ by {
            assert(texts(keys@)[k] == keys@[k]@);
            assert(texts(l@)[k] == l@[k]@);
        }
    }
}

/// The keys of a key file are the strings of its list, in order; a file that is missing, or is no
/// list of strings, holds none.
pub proof fn law_key_file_holds_keys(file: Option<String>, keys: Vec<String>)
    requires
        call_ensures(api_keys, (file,), keys),
    ensures
        file is None ==> keys@.len() == 0,
        file matches Some(data) ==> match json_strings(data@) {
            Some(list) => keys@.len() == list.len() && forall|k: int|
                0 <= k < list.len() ==> (#[trigger] keys@[k])@ == list[k],
            None => keys@.len() == 0,
        },
        call_requires(api_keys, (file,)),
{
    assert(texts(keys@).len() == keys@.len());
    if let Some(data) = file {
        if let Some(list) = json_strings(data@) {
            assert forall|k: int| 0 <= k < list.len() implies (#[trigger] keys@[k])@ == list[k] by {
                assert(texts(keys@)[k] == keys@[k]@);
            }
        }
    }
}

/// The key file is the one that the environment names, whatever it is called; `api_keys.json`
/// stands in only where it names none.
pub proof fn law_environment_names_key_file(env: Option<String>, path: String)
    requires
        call_ensures(api_keys_path, (env,), path),
    ensures
        env matches Some(p) ==> path@ == p@,
        env is None ==> path@ == "api_keys.json"@,
        call_requires(api_keys_path, (env,)),
{
}

/// A line of a status text that states the resident set size.
pub open spec fn states_rss(line: Seq<char>) -> bool {
    line.len() >= 6 && line[0] == 'V' && line[1] == 'm' && line[2] == 'R' && line[3] == 'S'
        && line[4] == 'S' && line[5] == ':'
}

/// The resident set size is what the second word spells of the first line labelled `VmRSS:`, with
/// any lines before and behind and any white space between the words. It is zero where that word
/// is missing or spells no 64-bit number.
pub proof fn law_rss_is_second_word(
    text: String,
    lines: Seq<Seq<char>>,
    k: int,
    gaps: Seq<Seq<char>>,
    words: Seq<Seq<char>>,
    kb: u64,
)
    requires
        free_of(lines, '\n'),
        text@ == strung(lines, seq!['\n']),
        0 <= k < lines.len(),
        states_rss(lines[k]),
        forall|j: int| 0 <= j < k ==> !states_rss(#[trigger] lines[j]),
        gaps_fit(gaps, words),
        lines[k] == spaced(gaps, words),
        call_ensures(rss_kb, (Some(text),), kb),
    ensures
        words.len() >= 2 ==> spelled_or(words[1], u64::MAX as int, 0, kb as int),
        words.len() < 2 ==> kb == 0,
        call_requires(rss_kb, (Some(text),)),
{
    lemma_pieces_of_strung(text@, '\n', lines);
    lemma_first_labelled(lines, 0, k);
    lemma_word_of_spaced(lines[k], 1, gaps, words);
    if words.len() >= 2 {
        lemma_number_is_spelled(words[1], u64::MAX as int);
    }
}

/// Without a status text, or without a line labelled `VmRSS:` in it, the resident set size is
/// zero.
pub proof fn law_rss_unstated_is_zero(status: Option<String>, lines: Seq<Seq<char>>, kb: u64)
    requires
        status matches Some(text) ==> {
            &&& lines.len() > 0
            &&& free_of(lines, '\n')
            &&& text@ == strung(lines, seq!['\n'])
            &&& forall|j: int| 0 <= j < lines.len() ==> !states_rss(#[trigger] lines[j])
        },
        call_ensures(rss_kb, (status,), kb),
    ensures
        kb == 0,
{
    if let Some(text) = status {
        lemma_pieces_of_strung(text@, '\n', lines);
        lemma_first_labelled(lines, 0, lines.len() as int);
    }
}

proof fn lemma_states_rss(line: Seq<char>)
    ensures
        starts_with(line, "VmRSS:"@) <==> states_rss(line),
{
    reveal_strlit("VmRSS:");
    let label = "VmRSS:"@;
    if line.len() >= 6 {
        let front = line.take(6);
        assert(front[0] == line[0] && front[1] == line[1] && front[2] == line[2] && front[3]
            == line[3] && front[4] == line[4] && front[5] == line[5]);
        if states_rss(line) {
            assert(front =~= label);
        }
    }
}

/// The first labelled line from `i` on is the one with number `k`, the number of lines where
/// there is none.
proof fn lemma_first_labelled(lines: Seq<Seq<char>>, i: int, k: int)
    requires
        0 <= i <= k <= lines.len(),
        forall|j: int| 0 <= j < k ==> !states_rss(#[trigger] lines[j]),
        k < lines.len() ==> states_rss(lines[k]),
    ensures
        labelled_line(lines, "VmRSS:"@, i) == if k < lines.len() {
            Some(lines[k])
        } else {
            None
        },
    decreases k - i,
{
    if i < lines.len() {
        lemma_states_rss(lines[i]);
    }
    if i < k {
        assert(!states_rss(lines[i]));
        lemma_first_labelled(lines, i + 1, k);
    }
}

/// A percentile stands behind that share of the measurements, rounded down; the largest
/// measurement is the last. None is left out of any list that can be counted up.
pub proof fn law_percentiles_split_measurements(n: usize, p: Percentiles)
    requires
        0 < n,
        n * 99 <= usize::MAX,
        call_ensures(percentiles, (n,), p),
    ensures
        50 * n - 100 < 100 * p.p50 <= 50 * n,
        95 * n - 100 < 100 * p.p95 <= 95 * n,
        99 * n - 100 < 100 * p.p99 <= 99 * n,
        p.max + 1 == n,
        call_requires(percentiles, (n,)),
{
}

/// An output that holds `hello` between `before` and `behind`.
pub open spec fn hello_between(before: Seq<char>, behind: Seq<char>) -> Seq<char> {
    before + seq!['h', 'e', 'l', 'l', 'o'] + behind
}

/// A run counts exactly where its output holds `hello`, with anything before and behind. The
/// first run, and no other, warns where it does not count.
pub proof fn law_echo_counts(
    successes: u32,
    i: u32,
    output: &str,
    before: Seq<char>,
    behind: Seq<char>,
    t: EchoTally,
)
    requires
        successes < u32::MAX,
        call_ensures(tally_echo, (successes, i, output), t),
    ensures
        t.successes == successes || t.successes == successes + 1,
        output@ == hello_between(before, behind) ==> t.successes == successes + 1,
        t.successes == successes + 1 ==> exists|x: Seq<char>, y: Seq<char>|
            output@ == #[trigger] hello_between(x, y),
        t.warn <==> i == 0 && t.successes == successes,
        call_requires(tally_echo, (successes, i, output)),
{
    let hello = seq!['h', 'e', 'l', 'l', 'o'];
    reveal_strlit("hello");
    assert(echo_marker() =~= hello);
    lemma_text_is_held(output@, hello, before, behind);
    if contains_text(output@, hello) {
        let (x, y) = choose|x: Seq<char>, y: Seq<char>| output@ == #[trigger] (x + hello + y);
        assert(output@ == hello_between(x, y));
    }
}

/// The isolation test passes on its first half unless the second fork reads 0xDEADBEEFCAFEBABE,
/// and on its second exactly where the first fork still reads it.
pub proof fn law_isolation_is_judged_by_secret(seen: u64, left: u64, r: Isolation)
    requires
        call_ensures(judge_isolation, (seen, left), r),
    ensures
        !r.secret_hidden <==> seen == 0xDEADBEEF_CAFEBABE,
        r.secret_kept <==> left == 0xDEADBEEF_CAFEBABE,
        call_requires(judge_isolation, (seen, left)),
{
}

/// A test that writes the secret into the first fork and the other word into the second, at the
/// same place, tells a shared memory from separate ones: only of separate ones, with anything but
/// the secret in the second before, both halves pass.
pub proof fn law_isolation_test_tells_forks_apart(initial: u64, shared: Isolation, apart: Isolation)
    requires
        initial != 0xDEADBEEF_CAFEBABE,
        call_ensures(judge_isolation, (SECRET, OVERWRITE), shared),
        call_ensures(judge_isolation, (initial, SECRET), apart),
    ensures
        !shared.secret_hidden && !shared.secret_kept,
        apart.secret_hidden && apart.secret_kept,
        SECRET == 0xDEADBEEF_CAFEBABE,
        OVERWRITE == 0x1111_1111_1111_1111,
        PROBE_OFFSET == 0x50000,
{
}

/// A language is served by the template that was loaded for the last entry that names it, and a
/// language that no entry names is not served.
pub proof fn law_last_entry_serves<T>(
    specs: &Vec<TemplateSpec>,
    loaded: Vec<T>,
    table: TemplateTable<T>,
    lang: &str,
    i: int,
    res: Option<&T>,
)
    requires
        specs@.len() == loaded@.len(),
        call_ensures(collect_templates::<T>, (specs, loaded), table),
        call_ensures(TemplateTable::<T>::get, (&table, lang), res),
    ensures
        0 <= i < specs@.len() && specs@[i].lang@ == lang@ && (forall|j: int|
            i < j < specs@.len() ==> (#[trigger] specs@[j]).lang@ != lang@) ==> res == Some(
            &loaded@[i],
        ),
        (forall|j: int| 0 <= j < specs@.len() ==> (#[trigger] specs@[j]).lang@ != lang@) ==> res
            is None,
        call_requires(collect_templates::<T>, (specs, loaded)),
        call_requires(TemplateTable::<T>::get, (&table, lang)),
{
    let langs = specs@.map_values(|spec: TemplateSpec| spec.lang@);
    if 0 <= i < specs@.len() && specs@[i].lang@ == lang@ && (forall|j: int|
        i < j < specs@.len() ==> (#[trigger] specs@[j]).lang@ != lang@) {
        assert forall|j: int| i < j < langs.len() implies #[trigger] langs[j] != langs[i] by {
            assert(specs@[j].lang@ != lang@);
        }
        law_last_template_serves(langs, loaded@, i);
    }
    if forall|j: int| 0 <= j < specs@.len() ==> (#[trigger] specs@[j]).lang@ != lang@ {
        if res is Some {
            law_only_listed_languages_are_served(langs, loaded@, lang@);
            let j = choose|j: int| 0 <= j < langs.len() && langs[j] == lang@;
            assert(specs@[j].lang@ == lang@);
        }
    }
}

/// Listing a template makes it the one of its language and leaves those of all other languages.
pub proof fn law_listing_replaces_one_language<T>(
    table: &mut TemplateTable<T>,
    lang: String,
    template: T,
    asked: &str,
    before: Option<&T>,
    after: Option<&T>,
)
    requires
        call_ensures(TemplateTable::<T>::insert, (table, lang, template), ()),
        call_ensures(TemplateTable::<T>::get, (&*old(table), asked), before),
        call_ensures(TemplateTable::<T>::get, (&*final(table), asked), after),
    ensures
        asked@ == lang@ ==> after == Some(&template),
        asked@ != lang@ ==> after == before,
{
}

/// The server listens on the local host, at the port in decimal without leading zeros.
pub proof fn law_server_listens_locally(port: u16, address: String)
    requires
        call_ensures(listen_address, (port,), address),
    ensures
        address@.len() > 10,
        address@.take(10) == seq!['1', '2', '7', '.', '0', '.', '0', '.', '1', ':'],
        digits_only(address@.skip(10)),
        worth(address@.skip(10)) == port,
        address@.len() > 11 ==> address@[10] != '0',
        call_requires(listen_address, (port,)),
{
    let host = "127.0.0.1:"@;
    let digits = decimal_text(port as nat);
    reveal_strlit("127.0.0.1:");
    lemma_decimal_text_is_plain(port as nat);
    assert(address@ == host + digits);
    assert(address@.skip(10) =~= digits);
    assert(address@.take(10) =~= seq!['1', '2', '7', '.', '0', '.', '0', '.', '1', ':']);
    assert(address@[10] == digits[0]);
}

} // verus!
