//! The options of the daemon.

use crate::text::{
    decimal, digits_value, in_list, law_prefix, number, parse_number, same, starts_with, texts,
};
use crate::uri::{law_number_of_decimal, parse_uri, uri_of, PrinterUri, UriView};
use vstd::prelude::*;
use vstd::string::StringExecFns;

verus! {

/// Where the blank page of an odd page count goes in the even pass.
#[derive(Clone, Copy, Debug, PartialEq, Eq, Structural)]
pub enum Blank {
    Leading,
    Trailing,
    Nowhere,
}

/// The options of the daemon.
#[derive(Debug)]
pub struct Config {
    pub listen: String,
    pub printer: PrinterUri,
    pub name: String,
    pub blank: Blank,
    /// seconds; 0 = wait for /flip or the dialog
    pub auto_continue: u64,
    /// 0 or 180
    pub rotate_even: u32,
    /// seconds between remote job-state polls
    pub poll: u64,
    /// open a desktop dialog to confirm the flip
    pub gui: bool,
}

/// The options as a mathematical value.
#[verifier::ext_equal]
pub struct ConfigView {
    pub listen: Seq<char>,
    pub printer: UriView,
    pub name: Seq<char>,
    pub blank: Blank,
    pub auto_continue: u64,
    pub rotate_even: u32,
    pub poll: u64,
    pub gui: bool,
}

impl View for Config {
    type V = ConfigView;

    open spec fn view(&self) -> ConfigView {
        ConfigView {
            listen: self.listen@,
            printer: self.printer@,
            name: self.name@,
            blank: self.blank,
            auto_continue: self.auto_continue,
            rotate_even: self.rotate_even,
            poll: self.poll,
            gui: self.gui,
        }
    }
}

impl Clone for Config {
    fn clone(&self) -> (r: Self)
        ensures
            r@ == self@,
    {
        Config {
            listen: self.listen.clone(),
            printer: self.printer.clone(),
            name: self.name.clone(),
            blank: self.blank,
            auto_continue: self.auto_continue,
            rotate_even: self.rotate_even,
            poll: self.poll,
            gui: self.gui,
        }
    }
}

/// The flags read so far.
struct Flags {
    listen: String,
    printer: Option<PrinterUri>,
    name: String,
    blank: String,
    auto_continue: u64,
    rotate_even: u32,
    poll: u64,
    gui: bool,
}

/// The flags as a mathematical value.
#[verifier::ext_equal]
pub struct FlagsView {
    pub listen: Seq<char>,
    pub printer: Option<UriView>,
    pub name: Seq<char>,
    pub blank: Seq<char>,
    pub auto_continue: u64,
    pub rotate_even: u32,
    pub poll: u64,
    pub gui: bool,
}

impl View for Flags {
    type V = FlagsView;

    closed spec fn view(&self) -> FlagsView {
        FlagsView {
            listen: self.listen@,
            printer: match self.printer {
                Some(u) => Some(u@),
                None => None,
            },
            name: self.name@,
            blank: self.blank@,
            auto_continue: self.auto_continue,
            rotate_even: self.rotate_even,
            poll: self.poll,
            gui: self.gui,
        }
    }
}

/// What holds where no flag says otherwise.
pub open spec fn defaults() -> FlagsView {
    FlagsView {
        listen: "127.0.0.1:6632"@,
        printer: None,
        name: "manual-duplex"@,
        blank: "leading"@,
        auto_continue: 0,
        rotate_even: 180,
        poll: 2,
        gui: true,
    }
}

/// The flags that take a value.
pub open spec fn valued() -> Seq<Seq<char>> {
    seq![
        "--listen"@,
        "--printer"@,
        "--name"@,
        "--blank"@,
        "--auto-continue"@,
        "--rotate-even"@,
        "--poll"@,
    ]
}

/// The flags after one that takes a value.
pub open spec fn with_value(f: FlagsView, flag: Seq<char>, v: Seq<char>) -> Result<
    FlagsView,
    Seq<char>,
> {
    if flag == "--listen"@ {
        Ok(FlagsView { listen: v, ..f })
    } else if flag == "--printer"@ {
        match uri_of(v) {
            Ok(u) => Ok(FlagsView { printer: Some(u), ..f }),
            Err(e) => Err(e),
        }
    } else if flag == "--name"@ {
        Ok(FlagsView { name: v, ..f })
    } else if flag == "--blank"@ {
        Ok(FlagsView { blank: v, ..f })
    } else if flag == "--auto-continue"@ {
        match number(v, 10, u64::MAX as nat) {
            Some(n) => Ok(FlagsView { auto_continue: n as u64, ..f }),
            None => Err("bad --auto-continue"@),
        }
    } else if flag == "--rotate-even"@ {
        match number(v, 10, u32::MAX as nat) {
            Some(n) => Ok(FlagsView { rotate_even: n as u32, ..f }),
            None => Err("bad --rotate-even"@),
        }
    } else {
        match number(v, 10, u64::MAX as nat) {
            Some(n) => Ok(
                FlagsView {
                    poll: if n < 1 {
                        1
                    } else {
                        n as u64
                    },
                    ..f
                },
            ),
            None => Err("bad --poll"@),
        }
    }
}

/// The flags that a list of arguments gives, read from the front. The first
/// argument that is wrong decides the error; a call for help is an empty one.
pub open spec fn read_flags(args: Seq<Seq<char>>, f: FlagsView) -> Result<FlagsView, Seq<char>>
    decreases args.len(),
{
    if args.len() == 0 {
        Ok(f)
    } else if valued().contains(args[0]) {
        if args.len() < 2 {
            Err(args[0] + " needs a value"@)
        } else {
            match with_value(f, args[0], args[1]) {
                Ok(g) => read_flags(args.skip(2), g),
                Err(e) => Err(e),
            }
        }
    } else if args[0] == "--gui"@ {
        read_flags(args.skip(1), FlagsView { gui: true, ..f })
    } else if args[0] == "--no-gui"@ {
        read_flags(args.skip(1), FlagsView { gui: false, ..f })
    } else if args[0] == "-h"@ || args[0] == "--help"@ {
        Err(""@)
    } else {
        Err("unknown argument '"@ + args[0] + "'"@)
    }
}

/// The place of the blank page that a word names.
pub open spec fn blank_named(word: Seq<char>) -> Option<Blank> {
    if word == "trailing"@ {
        Some(Blank::Trailing)
    } else if word == "leading"@ {
        Some(Blank::Leading)
    } else if word == "none"@ {
        Some(Blank::Nowhere)
    } else {
        None
    }
}

/// Whether an address is on the loopback interface, by its text.
pub open spec fn is_loopback(listen: Seq<char>) -> bool {
    "127."@.is_prefix_of(listen) || "localhost:"@.is_prefix_of(listen) || "[::1]"@.is_prefix_of(
        listen,
    )
}

/// What the flags amount to: the options or an error, and a warning where the
/// daemon would listen to other machines.
pub open spec fn settle(f: FlagsView) -> (Result<ConfigView, Seq<char>>, Option<Seq<char>>) {
    match blank_named(f.blank) {
        None => (Err("--blank must be trailing, leading or none"@), None),
        Some(blank) => if f.rotate_even != 0 && f.rotate_even != 180 {
            (Err("--rotate-even must be 0 or 180"@), None)
        } else {
            (
                match f.printer {
                    None => Err("--printer is required"@),
                    Some(printer) => Ok(
                        ConfigView {
                            listen: f.listen,
                            printer,
                            name: f.name,
                            blank,
                            auto_continue: f.auto_continue,
                            rotate_even: f.rotate_even,
                            poll: f.poll,
                            gui: f.gui,
                        },
                    ),
                },
                if is_loopback(f.listen) {
                    None
                } else {
                    Some("warning: listening on non-loopback address "@ + f.listen)
                },
            )
        },
    }
}

/// What a list of arguments amounts to.
pub open spec fn options_of(args: Seq<Seq<char>>) -> (
    Result<ConfigView, Seq<char>>,
    Option<Seq<char>>,
) {
    match read_flags(args, defaults()) {
        Ok(f) => settle(f),
        Err(e) => (Err(e), None),
    }
}

/// The options as a mathematical value, or the error.
pub open spec fn config_result(r: Result<Config, String>) -> Result<ConfigView, Seq<char>> {
    match r {
        Ok(c) => Ok(c@),
        Err(e) => Err(e@),
    }
}

/// An optional text as a mathematical value.
pub open spec fn opt_text(s: Option<String>) -> Option<Seq<char>> {
    match s {
        Some(s) => Some(s@),
        None => None,
    }
}

spec fn flags_result(r: Result<Flags, String>) -> Result<FlagsView, Seq<char>> {
    match r {
        Ok(f) => Ok(f@),
        Err(e) => Err(e@),
    }
}

/// The flags after one that takes a value.
fn take_value(flags: Flags, flag: &str, v: &str) -> (r: Result<Flags, String>)
    requires
        valued().contains(flag@),
    ensures
        flags_result(r) == with_value(flags@, flag@, v@),
{
    let mut f = flags;
    if same(flag, "--listen") {
        f.listen = v.to_owned();
    } else if same(flag, "--printer") {
        match parse_uri(v) {
            Ok(u) => {
                f.printer = Some(u);
            },
            Err(e) => {
                return Err(e);
            },
        }
    } else if same(flag, "--name") {
        f.name = v.to_owned();
    } else if same(flag, "--blank") {
        f.blank = v.to_owned();
    } else if same(flag, "--auto-continue") {
        match parse_number(v, 10, u64::MAX) {
            Some(n) => {
                f.auto_continue = n;
            },
            None => {
                return Err("bad --auto-continue".to_owned());
            },
        }
    } else if same(flag, "--rotate-even") {
        match parse_number(v, 10, u32::MAX as u64) {
            Some(n) => {
                f.rotate_even = n as u32;
            },
            None => {
                return Err("bad --rotate-even".to_owned());
            },
        }
    } else {
        match parse_number(v, 10, u64::MAX) {
            Some(n) => {
                f.poll = if n < 1 {
                    1
                } else {
                    n
                };
            },
            None => {
                return Err("bad --poll".to_owned());
            },
        }
    }
    Ok(f)
}

/// Whether a flag takes a value.
fn takes_value(flag: &str) -> (r: bool)
    ensures
        r == valued().contains(flag@),
{
    let names: [&str; 7] = [
        "--listen",
        "--printer",
        "--name",
        "--blank",
        "--auto-continue",
        "--rotate-even",
        "--poll",
    ];
    assert(names@.map_values(|s: &str| s@) =~= valued());
    in_list(flag, &names)
}

/// The flags that a list of arguments gives.
fn scan(args: &Vec<String>) -> (r: Result<Flags, String>)
    ensures
        flags_result(r) == read_flags(texts(args@), defaults()),
{
    let ghost all = texts(args@);
    let mut f = Flags {
        listen: "127.0.0.1:6632".to_owned(),
        printer: None,
        name: "manual-duplex".to_owned(),
        blank: "leading".to_owned(),
        auto_continue: 0,
        rotate_even: 180,
        poll: 2,
        gui: true,
    };
    let mut i: usize = 0;
    assert(all.skip(0) =~= all);
    assert(f@ =~= defaults());
    while i < args.len()
        invariant
            i <= args@.len(),
            all == texts(args@),
            read_flags(all, defaults()) == read_flags(all.skip(i as int), f@),
        decreases args@.len() - i,
    {
        let a = args[i].as_str();
        assert(all.skip(i as int)[0] == a@);
        assert(all.skip(i as int).skip(1) =~= all.skip(i + 1));
        if takes_value(a) {
            if args.len() - i < 2 {
                let mut e = a.to_owned();
                e.append(" needs a value");
                return Err(e);
            }
            assert(all.skip(i as int)[1] == args@[i + 1]@);
            assert(all.skip(i as int).skip(2) =~= all.skip(i + 2));
            match take_value(f, a, args[i + 1].as_str()) {
                Ok(g) => {
                    f = g;
                },
                Err(e) => {
                    return Err(e);
                },
            }
            i += 2;
        } else if same(a, "--gui") {
            f.gui = true;
            i += 1;
        } else if same(a, "--no-gui") {
            f.gui = false;
            i += 1;
        } else if same(a, "-h") || same(a, "--help") {
            return Err("".to_owned());
        } else {
            let mut e = "unknown argument '".to_owned();
            e.append(a);
            e.append("'");
            return Err(e);
        }
    }
    Ok(f)
}

/// Reads the command line, without the program's name: the options or an error,
/// and a warning where there is one.
pub fn parse_args(args: &Vec<String>) -> (r: (Result<Config, String>, Option<String>))
    ensures
        (config_result(r.0), opt_text(r.1)) == options_of(texts(args@)),
{
    let f = match scan(args) {
        Ok(f) => f,
        Err(e) => {
            return (Err(e), None);
        },
    };
    let blank = if same(f.blank.as_str(), "trailing") {
        Blank::Trailing
    } else if same(f.blank.as_str(), "leading") {
        Blank::Leading
    } else if same(f.blank.as_str(), "none") {
        Blank::Nowhere
    } else {
        return (Err("--blank must be trailing, leading or none".to_owned()), None);
    };
    if f.rotate_even != 0 && f.rotate_even != 180 {
        return (Err("--rotate-even must be 0 or 180".to_owned()), None);
    }
    let listen = f.listen.as_str();
    let warning = if starts_with(listen, "127.") || starts_with(listen, "localhost:")
        || starts_with(listen, "[::1]") {
        None
    } else {
        let mut w = "warning: listening on non-loopback address ".to_owned();
        w.append(listen);
        Some(w)
    };
    match f.printer {
        None => (Err("--printer is required".to_owned()), warning),
        Some(printer) => (
            Ok(
                Config {
                    listen: f.listen,
                    printer,
                    name: f.name,
                    blank,
                    auto_continue: f.auto_continue,
                    rotate_even: f.rotate_even,
                    poll: f.poll,
                    gui: f.gui,
                },
            ),
            warning,
        ),
    }
}

/// Whatever the command line says, options that come out of it are usable: the
/// rotation is 0 or 180, and polls are at least a second apart.
pub proof fn law_options_are_usable(args: Seq<Seq<char>>)
    ensures
        options_of(args).0 matches Ok(c) ==> (c.rotate_even == 0 || c.rotate_even == 180) && c.poll
            >= 1,
{
    lemma_poll(args, defaults());
}

proof fn lemma_poll(args: Seq<Seq<char>>, f: FlagsView)
    requires
        f.poll >= 1,
    ensures
        read_flags(args, f) matches Ok(g) ==> g.poll >= 1,
    decreases args.len(),
{
    if args.len() > 0 {
        if valued().contains(args[0]) {
            if args.len() >= 2 {
                if let Ok(g) = with_value(f, args[0], args[1]) {
                    lemma_poll(args.skip(2), g);
                }
            }
        } else if args[0] == "--gui"@ {
            lemma_poll(args.skip(1), FlagsView { gui: true, ..f });
        } else if args[0] == "--no-gui"@ {
            lemma_poll(args.skip(1), FlagsView { gui: false, ..f });
        }
    }
}

proof fn lemma_flags_are_apart()
    ensures
        valued().contains("--listen"@),
        valued().contains("--printer"@),
        valued().contains("--name"@),
        valued().contains("--blank"@),
        valued().contains("--auto-continue"@),
        valued().contains("--rotate-even"@),
        valued().contains("--poll"@),
        !valued().contains("--gui"@),
        !valued().contains("--no-gui"@),
        !valued().contains("-h"@),
        !valued().contains("--help"@),
        "--printer"@ != "--listen"@,
        "--name"@ != "--listen"@,
        "--name"@ != "--printer"@,
        "--blank"@ != "--listen"@,
        "--blank"@ != "--printer"@,
        "--blank"@ != "--name"@,
        "--auto-continue"@ != "--listen"@,
        "--auto-continue"@ != "--printer"@,
        "--auto-continue"@ != "--name"@,
        "--auto-continue"@ != "--blank"@,
        "--rotate-even"@ != "--listen"@,
        "--rotate-even"@ != "--printer"@,
        "--rotate-even"@ != "--name"@,
        "--rotate-even"@ != "--blank"@,
        "--rotate-even"@ != "--auto-continue"@,
        "--poll"@ != "--listen"@,
        "--poll"@ != "--printer"@,
        "--poll"@ != "--name"@,
        "--poll"@ != "--blank"@,
        "--poll"@ != "--auto-continue"@,
        "--poll"@ != "--rotate-even"@,
        "--no-gui"@ != "--gui"@,
        "-h"@ != "--gui"@,
        "-h"@ != "--no-gui"@,
        "--help"@ != "--gui"@,
        "--help"@ != "--no-gui"@,
{
    reveal_strlit("--listen");
    reveal_strlit("--printer");
    reveal_strlit("--name");
    reveal_strlit("--blank");
    reveal_strlit("--auto-continue");
    reveal_strlit("--rotate-even");
    reveal_strlit("--poll");
    reveal_strlit("--gui");
    reveal_strlit("--no-gui");
    reveal_strlit("-h");
    reveal_strlit("--help");
    assert("--listen"@.len() == 8);
    assert("--printer"@.len() == 9);
    assert("--name"@.len() == 6);
    assert("--blank"@.len() == 7);
    assert("--auto-continue"@.len() == 15);
    assert("--rotate-even"@.len() == 13);
    assert("--poll"@.len() == 6);
    assert("--gui"@.len() == 5);
    assert("--no-gui"@.len() == 8);
    assert("-h"@.len() == 2);
    assert("--help"@.len() == 6);
    assert("--name"@[2] != "--poll"@[2]);
    let v = valued();
    assert(v[0] == "--listen"@);
    assert(v[1] == "--printer"@);
    assert(v[2] == "--name"@);
    assert(v[3] == "--blank"@);
    assert(v[4] == "--auto-continue"@);
    assert(v[5] == "--rotate-even"@);
    assert(v[6] == "--poll"@);
    let mark = |s: Seq<char>| (s.len(), s[2]);
    assert forall|i: int| 0 <= i < v.len() implies v[i] != "--gui"@ && v[i] != "--no-gui"@ && v[i]
        != "-h"@ && v[i] != "--help"@ by {
        assert(v[i].len() >= 6);
        assert(mark(v[i]) != mark("--no-gui"@));
        assert(mark(v[i]) != mark("--help"@));
    }
}

/// Arguments are read one behind the other: what is read of more of them goes on
/// where the first ones led to.
pub proof fn law_flags_follow_each_other(args: Seq<Seq<char>>, more: Seq<Seq<char>>, f: FlagsView)
    ensures
        read_flags(args, f) matches Ok(g) ==> read_flags(args + more, f) == read_flags(more, g),
    decreases args.len(),
{
    let all = args + more;
    if args.len() == 0 {
        assert(all =~= more);
    } else {
        assert(all[0] == args[0]);
        assert(all.skip(1) =~= args.skip(1) + more);
        if valued().contains(args[0]) {
            if args.len() >= 2 {
                assert(all[1] == args[1]);
                assert(all.skip(2) =~= args.skip(2) + more);
                if let Ok(g) = with_value(f, args[0], args[1]) {
                    law_flags_follow_each_other(args.skip(2), more, g);
                }
            }
        } else if args[0] == "--gui"@ {
            law_flags_follow_each_other(args.skip(1), more, FlagsView { gui: true, ..f });
        } else if args[0] == "--no-gui"@ {
            law_flags_follow_each_other(args.skip(1), more, FlagsView { gui: false, ..f });
        }
    }
}

proof fn lemma_one_value(f: FlagsView, flag: Seq<char>, v: Seq<char>)
    requires
        valued().contains(flag),
    ensures
        read_flags(seq![flag, v], f) == with_value(f, flag, v),
        read_flags(seq![flag], f) == Err::<FlagsView, Seq<char>>(flag + " needs a value"@),
{
    let args = seq![flag, v];
    assert(args[0] == flag && args[1] == v);
    assert(args.skip(2) =~= seq![]);
    assert(seq![flag][0] == flag);
    if let Ok(g) = with_value(f, flag, v) {
        assert(read_flags(args.skip(2), g) == Ok::<FlagsView, Seq<char>>(g));
    }
}

/// Each flag sets what it is for and nothing else: the address, the name, the place
/// of the blank page and the printer as they are given.
pub proof fn law_text_flags(f: FlagsView, v: Seq<char>)
    ensures
        read_flags(seq!["--listen"@, v], f) == Ok::<FlagsView, Seq<char>>(
            FlagsView { listen: v, ..f },
        ),
        read_flags(seq!["--name"@, v], f) == Ok::<FlagsView, Seq<char>>(
            FlagsView { name: v, ..f },
        ),
        read_flags(seq!["--blank"@, v], f) == Ok::<FlagsView, Seq<char>>(
            FlagsView { blank: v, ..f },
        ),
        match uri_of(v) {
            Ok(u) => read_flags(seq!["--printer"@, v], f) == Ok::<FlagsView, Seq<char>>(
                FlagsView { printer: Some(u), ..f },
            ),
            Err(e) => read_flags(seq!["--printer"@, v], f) == Err::<FlagsView, Seq<char>>(e),
        },
{
    lemma_flags_are_apart();
    lemma_one_value(f, "--listen"@, v);
    lemma_one_value(f, "--name"@, v);
    lemma_one_value(f, "--blank"@, v);
    lemma_one_value(f, "--printer"@, v);
}

/// The seconds and degrees are the numbers that are given; there is at least a
/// second between polls. A value that is no number is an error.
pub proof fn law_number_flags(f: FlagsView, n: u64, degrees: u32, v: Seq<char>)
    requires
        v.len() > 0,
        v[0] != '+',
        digits_value(v, 10) is None,
    ensures
        read_flags(seq!["--auto-continue"@, decimal(n as nat)], f) == Ok::<FlagsView, Seq<char>>(
            FlagsView { auto_continue: n, ..f },
        ),
        read_flags(seq!["--rotate-even"@, decimal(degrees as nat)], f) == Ok::<
            FlagsView,
            Seq<char>,
        >(FlagsView { rotate_even: degrees, ..f }),
        n > 0 ==> read_flags(seq!["--poll"@, decimal(n as nat)], f) == Ok::<FlagsView, Seq<char>>(
            FlagsView { poll: n, ..f },
        ),
        n == 0 ==> read_flags(seq!["--poll"@, decimal(n as nat)], f) == Ok::<FlagsView, Seq<char>>(
            FlagsView { poll: 1, ..f },
        ),
        read_flags(seq!["--auto-continue"@, v], f) == Err::<FlagsView, Seq<char>>(
            "bad --auto-continue"@,
        ),
        read_flags(seq!["--rotate-even"@, v], f) == Err::<FlagsView, Seq<char>>(
            "bad --rotate-even"@,
        ),
        read_flags(seq!["--poll"@, v], f) == Err::<FlagsView, Seq<char>>("bad --poll"@),
{
    lemma_flags_are_apart();
    law_number_of_decimal(n as nat, u64::MAX as nat);
    law_number_of_decimal(degrees as nat, u32::MAX as nat);
    lemma_one_value(f, "--auto-continue"@, decimal(n as nat));
    lemma_one_value(f, "--rotate-even"@, decimal(degrees as nat));
    lemma_one_value(f, "--poll"@, decimal(n as nat));
    lemma_one_value(f, "--auto-continue"@, v);
    lemma_one_value(f, "--rotate-even"@, v);
    lemma_one_value(f, "--poll"@, v);
}

/// The dialog is switched on and off; a call for help is an empty error; what is not
/// one of the eleven flags is an error that names it, and so is a flag that lacks
/// its value.
pub proof fn law_other_flags(f: FlagsView, arg: Seq<char>, rest: Seq<Seq<char>>)
    ensures
        read_flags(seq!["--gui"@], f) == Ok::<FlagsView, Seq<char>>(FlagsView { gui: true, ..f }),
        read_flags(seq!["--no-gui"@], f) == Ok::<FlagsView, Seq<char>>(
            FlagsView { gui: false, ..f },
        ),
        read_flags(seq!["-h"@] + rest, f) == Err::<FlagsView, Seq<char>>(""@),
        read_flags(seq!["--help"@] + rest, f) == Err::<FlagsView, Seq<char>>(""@),
        arg != "--listen"@ && arg != "--printer"@ && arg != "--name"@ && arg != "--blank"@ && arg
            != "--auto-continue"@ && arg != "--rotate-even"@ && arg != "--poll"@ && arg
            != "--gui"@ && arg != "--no-gui"@ && arg != "-h"@ && arg != "--help"@ ==> read_flags(
            seq![arg] + rest,
            f,
        ) == Err::<FlagsView, Seq<char>>("unknown argument '"@ + arg + "'"@),
        arg == "--listen"@ || arg == "--printer"@ || arg == "--name"@ || arg == "--blank"@ || arg
            == "--auto-continue"@ || arg == "--rotate-even"@ || arg == "--poll"@ ==> read_flags(
            seq![arg],
            f,
        ) == Err::<FlagsView, Seq<char>>(arg + " needs a value"@),
{
    lemma_flags_are_apart();
    let none = Seq::<Seq<char>>::empty();
    let on = seq!["--gui"@];
    let off = seq!["--no-gui"@];
    assert(on[0] == "--gui"@ && on.skip(1) =~= none);
    assert(off[0] == "--no-gui"@ && off.skip(1) =~= none);
    assert(read_flags(none, FlagsView { gui: true, ..f }) == Ok::<FlagsView, Seq<char>>(
        FlagsView { gui: true, ..f },
    ));
    assert(read_flags(none, FlagsView { gui: false, ..f }) == Ok::<FlagsView, Seq<char>>(
        FlagsView { gui: false, ..f },
    ));
    assert((seq!["-h"@] + rest)[0] == "-h"@);
    assert((seq!["--help"@] + rest)[0] == "--help"@);
    assert((seq![arg] + rest)[0] == arg);
    assert(seq![arg][0] == arg);
}

/// What holds where no flag says otherwise, given a printer: the daemon listens on
/// this machine only, a blank page leads the backs, these are turned, the user is
/// asked for the flip in a dialog, and there are two seconds between polls.
pub proof fn law_defaults(uri: Seq<char>, u: UriView)
    requires
        uri_of(uri) == Ok::<UriView, Seq<char>>(u),
    ensures
        options_of(seq!["--printer"@, uri]) == (
            Ok::<ConfigView, Seq<char>>(
                ConfigView {
                    listen: "127.0.0.1:6632"@,
                    printer: u,
                    name: "manual-duplex"@,
                    blank: Blank::Leading,
                    auto_continue: 0,
                    rotate_even: 180,
                    poll: 2,
                    gui: true,
                },
            ),
            None::<Seq<char>>,
        ),
        options_of(Seq::<Seq<char>>::empty()).0 == Err::<ConfigView, Seq<char>>(
            "--printer is required"@,
        ),
{
    law_text_flags(defaults(), uri);
    lemma_blank_words();
    reveal_strlit("127.");
    reveal_strlit("127.0.0.1:6632");
    assert("127.0.0.1:6632"@.subrange(0, 4) =~= "127."@);
}

proof fn lemma_blank_words()
    ensures
        "leading"@ != "trailing"@,
        "none"@ != "trailing"@,
        "none"@ != "leading"@,
{
    reveal_strlit("leading");
    reveal_strlit("trailing");
    reveal_strlit("none");
    assert("leading"@.len() == 7);
    assert("trailing"@.len() == 8);
    assert("none"@.len() == 4);
}

/// The flags become the options that they are: every one is carried over, the word
/// for the blank page must be one of three and names its place, the rotation must be
/// 0 or 180, and there must be a printer.
pub proof fn law_flags_become_options(f: FlagsView, u: UriView, blank: Blank)
    requires
        f.printer == Some(u),
        f.blank == (match blank {
            Blank::Leading => "leading"@,
            Blank::Trailing => "trailing"@,
            Blank::Nowhere => "none"@,
        }),
    ensures
        f.rotate_even == 0 || f.rotate_even == 180 ==> settle(f).0 == Ok::<ConfigView, Seq<char>>(
            ConfigView {
                listen: f.listen,
                printer: u,
                name: f.name,
                blank,
                auto_continue: f.auto_continue,
                rotate_even: f.rotate_even,
                poll: f.poll,
                gui: f.gui,
            },
        ),
        f.rotate_even != 0 && f.rotate_even != 180 ==> settle(f).0 == Err::<
            ConfigView,
            Seq<char>,
        >("--rotate-even must be 0 or 180"@),
        (f.rotate_even == 0 || f.rotate_even == 180) ==> settle(
            FlagsView { printer: None, ..f },
        ).0 == Err::<ConfigView, Seq<char>>("--printer is required"@),
{
    lemma_blank_words();
}

/// Any other word for the blank page is an error.
pub proof fn law_blank_word_is_checked(f: FlagsView)
    requires
        f.blank != "leading"@,
        f.blank != "trailing"@,
        f.blank != "none"@,
    ensures
        settle(f).0 == Err::<ConfigView, Seq<char>>("--blank must be trailing, leading or none"@),
{
}

/// The user is warned exactly if the address is not one of this machine only: one
/// that begins with 127., with localhost: or with [::1].
pub proof fn law_other_machines_are_warned_of(f: FlagsView, rest: Seq<char>)
    requires
        settle(f).0 is Ok,
    ensures
        f.listen == "127."@ + rest || f.listen == "localhost:"@ + rest || f.listen == "[::1]"@
            + rest ==> settle(f).1 is None,
        !"127."@.is_prefix_of(f.listen) && !"localhost:"@.is_prefix_of(f.listen)
            && !"[::1]"@.is_prefix_of(f.listen) ==> settle(f).1 == Some(
            "warning: listening on non-loopback address "@ + f.listen,
        ),
{
    law_prefix("127."@, rest);
    law_prefix("localhost:"@, rest);
    law_prefix("[::1]"@, rest);
    assert(("127."@ + rest).subrange(0, "127."@.len() as int) =~= "127."@);
    assert(("localhost:"@ + rest).subrange(0, "localhost:"@.len() as int) =~= "localhost:"@);
    assert(("[::1]"@ + rest).subrange(0, "[::1]"@.len() as int) =~= "[::1]"@);
}

} // verus!
