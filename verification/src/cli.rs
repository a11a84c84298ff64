//! The command line: in which mode the gateway runs.
use crate::text;
use crate::text::{same, to_chars, trimmed};
use vstd::prelude::*;

verus! {

/// The port where none is asked for.
pub const DEFAULT_PORT: u16 = 8000;

/// How the gateway is to run.
#[derive(Debug)]
pub enum Mode {
    /// Serve HTTP.
    Http { port: u16 },
    /// Answer one prompt.
    Cron { prompt: String },
    /// Answer one prompt, which is to be read from the standard input.
    CronFromInput,
}

/// Whether a text is made of decimal digits.
pub open spec fn all_digits(s: Seq<char>) -> bool {
    s.len() > 0 && forall|i: int| 0 <= i < s.len() ==> '0' <= #[trigger] s[i] <= '9'
}

/// The number that decimal digits stand for.
pub open spec fn digits_value(s: Seq<char>) -> nat
    decreases s.len(),
{
    if s.len() == 0 {
        0
    } else {
        (10 * digits_value(s.drop_last()) + (s.last() as u32 - '0' as u32)) as nat
    }
}

/// A text without a plus sign before it.
pub open spec fn without_plus(s: Seq<char>) -> Seq<char> {
    if s.len() > 0 && s[0] == '+' {
        s.drop_first()
    } else {
        s
    }
}

/// The port that a text stands for: a number that fits, else the default.
pub open spec fn port_of(s: Seq<char>) -> u16 {
    let digits = without_plus(s);
    if all_digits(digits) && digits_value(digits) <= u16::MAX {
        digits_value(digits) as u16
    } else {
        DEFAULT_PORT
    }
}

proof fn lemma_digits_value_grows(s: Seq<char>, k: int)
    requires
        0 <= k <= s.len(),
        forall|i: int| 0 <= i < s.len() ==> '0' <= #[trigger] s[i] <= '9',
    ensures
        digits_value(s.take(k)) <= digits_value(s),
    decreases s.len(),
{
    if k < s.len() {
        lemma_digits_value_grows(s.drop_last(), k);
        assert(s.drop_last().take(k) =~= s.take(k));
        assert('0' <= s[s.len() - 1] <= '9');
    } else {
        assert(s.take(k) =~= s);
    }
}

/// The port that a text stands for.
pub fn parse_port(s: &str) -> (port: u16)
    ensures
        port == port_of(s@),
{
    let v = to_chars(s);
    let n: usize = v.len();
    let start: usize = if n > 0 && v[0] == '+' {
        1
    } else {
        0
    };
    let ghost digits = without_plus(s@);
    assert(digits =~= v@.skip(start as int));
    if start == n {
        return DEFAULT_PORT;
    }
    let mut value: u32 = 0;
    let mut i: usize = start;
    assert(digits.take(0) =~= Seq::empty());
    while i < n
        invariant
            start <= i <= n == v@.len(),
            digits == v@.skip(start as int),
            digits == without_plus(s@),
            forall|k: int| 0 <= k < i - start ==> '0' <= #[trigger] digits[k] <= '9',
            value == digits_value(digits.take(i - start)),
            value <= u16::MAX,
        decreases n - i,
    {
        let c = v[i];
        assert(digits[i - start] == c);
        if c < '0' || c > '9' {
            return DEFAULT_PORT;
        }
        let d: u32 = c as u32 - '0' as u32;
        assert(digits.take(i - start + 1).drop_last() =~= digits.take(i - start));
        value = value * 10 + d;
        i = i + 1;
        if value > u16::MAX as u32 {
            proof {
                if all_digits(digits) {
                    lemma_digits_value_grows(digits, i - start);
                }
            }
            return DEFAULT_PORT;
        }
    }
    assert(digits.take(i - start) =~= digits);
    value as u16
}

/// What the command line has said so far.
pub struct Options {
    pub port: u16,
    pub mode: String,
    pub prompt: String,
}

#[verifier::ext_equal]
pub struct OptionsView {
    pub port: u16,
    pub mode: Seq<char>,
    pub prompt: Seq<char>,
}

impl View for Options {
    type V = OptionsView;

    open spec fn view(&self) -> OptionsView {
        OptionsView { port: self.port, mode: self.mode@, prompt: self.prompt@ }
    }
}

/// What the command line says where it says nothing.
pub open spec fn default_options() -> OptionsView {
    OptionsView { port: DEFAULT_PORT, mode: "http"@, prompt: Seq::empty() }
}

/// The options after a flag and its value. An unknown flag is passed over.
pub open spec fn with_flag(o: OptionsView, flag: Seq<char>, value: Seq<char>) -> OptionsView {
    if flag == "--port"@ {
        OptionsView { port: port_of(value), ..o }
    } else if flag == "--mode"@ {
        OptionsView { mode: value, ..o }
    } else if flag == "--prompt"@ {
        OptionsView { prompt: value, ..o }
    } else {
        o
    }
}

/// Whether a flag takes the argument that follows it.
pub open spec fn takes_value(flag: Seq<char>) -> bool {
    flag == "--port"@ || flag == "--mode"@ || flag == "--prompt"@
}

/// The options after the arguments from the index `i` on. A flag at the end, without
/// a value, changes nothing.
pub open spec fn options_from(args: Seq<Seq<char>>, i: int, o: OptionsView) -> OptionsView
    decreases args.len() - i,
{
    if i >= args.len() {
        o
    } else if takes_value(args[i]) {
        if i + 1 < args.len() {
            options_from(args, i + 2, with_flag(o, args[i], args[i + 1]))
        } else {
            o
        }
    } else {
        options_from(args, i + 1, o)
    }
}

/// What the arguments say; the first is the name of the program.
pub fn read_options(args: &Vec<String>) -> (r: Options)
    ensures
        r@ == options_from(text::views(args@), 1, default_options()),
{
    let ghost all = text::views(args@);
    let mut o = Options {
        port: DEFAULT_PORT,
        mode: "http".to_owned(),
        prompt: String::new(),
    };
    assert(o@ =~= default_options());
    let n: usize = args.len();
    let mut i: usize = 1;
    while i < n
        invariant
            n == args@.len(),
            all == text::views(args@),
            1 <= i,
            options_from(all, i as int, o@) == options_from(all, 1, default_options()),
        decreases n - i,
    {
        let flag = args[i].as_str();
        let port = same(flag, "--port");
        let mode = same(flag, "--mode");
        let prompt = same(flag, "--prompt");
        assert(all[i as int] == flag@);
        if port || mode || prompt {
            if i + 1 == n {
                return o;
            }
            let value = args[i + 1].as_str();
            let ghost before = o@;
            assert(all[i + 1] == value@);
            if port {
                o.port = parse_port(value);
            } else if mode {
                o.mode = value.to_owned();
            } else {
                o.prompt = value.to_owned();
            }
            assert(o@ =~= with_flag(before, flag@, value@));
            i = i + 2;
        } else {
            i = i + 1;
        }
    }
    o
}

/// How the gateway is to run, given what the command line says. Any mode but `cron`
/// means HTTP.
pub fn mode_for(o: Options) -> (m: Mode)
    ensures
        match m {
            Mode::Http { port } => o@.mode != "cron"@ && port == o@.port,
            Mode::Cron { prompt } => o@.mode == "cron"@ && o@.prompt.len() > 0 && prompt@
                == o@.prompt,
            Mode::CronFromInput => o@.mode == "cron"@ && o@.prompt.len() == 0,
        },
{
    if same(o.mode.as_str(), "cron") {
        if o.prompt.as_str().is_empty() {
            Mode::CronFromInput
        } else {
            Mode::Cron { prompt: o.prompt }
        }
    } else {
        Mode::Http { port: o.port }
    }
}

/// How the gateway is to run.
pub fn parse_args(args: &Vec<String>) -> (m: Mode)
    ensures
        ({
            let o = options_from(text::views(args@), 1, default_options());
            match m {
                Mode::Http { port } => o.mode != "cron"@ && port == o.port,
                Mode::Cron { prompt } => o.mode == "cron"@ && o.prompt.len() > 0 && prompt@
                    == o.prompt,
                Mode::CronFromInput => o.mode == "cron"@ && o.prompt.len() == 0,
            }
        }),
{
    mode_for(read_options(args))
}

/// The prompt that was read from the standard input, or a daily one where nothing was.
pub fn prompt_from_input(input: &str) -> (r: String)
    ensures
        r@ == (if text::is_blank(input@) {
            "Generate a daily summary and update tasks"@
        } else {
            text::trim(input@)
        }),
{
    proof {
        text::lemma_blank_iff_trim_empty(input@);
    }
    let prompt = trimmed(input);
    if prompt.as_str().is_empty() {
        "Generate a daily summary and update tasks".to_owned()
    } else {
        prompt
    }
}

// The command line, told by its arguments.

proof fn lemma_decimal_digits(n: nat)
    ensures
        all_digits(text::decimal(n)),
        digits_value(text::decimal(n)) == n,
    decreases n,
{
    let s = text::decimal(n);
    if n < 10 {
        text::law_decimal(0, n);
        assert(s.drop_last() =~= Seq::empty());
        assert(digits_value(s.drop_last()) == 0);
        assert(s.last() == (48 + n) as char);
    } else {
        let low = text::decimal(n / 10);
        text::law_decimal(n / 10, n % 10);
        lemma_decimal_digits(n / 10);
        assert(s == low.push((48 + n % 10) as char));
        assert(s.drop_last() =~= low);
        assert forall|i: int| 0 <= i < s.len() implies '0' <= #[trigger] s[i] <= '9' by {
            if i < low.len() {
                assert(s[i] == low[i]);
            }
        }
    }
}

proof fn lemma_leading_zero(s: Seq<char>)
    ensures
        digits_value(seq!['0'] + s) == digits_value(s),
    decreases s.len(),
{
    let all = seq!['0'] + s;
    if s.len() == 0 {
        assert(all.drop_last() =~= Seq::empty());
        assert(digits_value(all.drop_last()) == 0);
        assert(all.last() == '0');
    } else {
        assert(all.drop_last() =~= seq!['0'] + s.drop_last());
        assert(all.last() == s.last());
        lemma_leading_zero(s.drop_last());
    }
}

/// A port is the number that is written, with or without a plus sign and zeros before it,
/// where it is one of a port. Any other text means port 8000.
pub proof fn law_port_is_the_number(n: nat, digits: Seq<char>, s: Seq<char>, i: int)
    ensures
        port_of(text::decimal(n)) == (if n <= 65535 {
            n as u16
        } else {
            8000
        }),
        digits.len() > 0 && (forall|k: int|
            0 <= k < digits.len() ==> '0' <= #[trigger] digits[k] <= '9') ==> port_of(
            seq!['+'] + digits,
        ) == port_of(digits) && port_of(seq!['0'] + digits) == port_of(digits),
        0 <= i < s.len() && !('0' <= s[i] <= '9') && (s[i] != '+' || i > 0) ==> port_of(s) == 8000,
        port_of(Seq::empty()) == 8000,
        port_of(seq!['+']) == 8000,
{
    lemma_decimal_digits(n);
    let d = text::decimal(n);
    assert('0' <= d[0] <= '9');
    assert(without_plus(d) == d);
    if digits.len() > 0 && (forall|k: int|
        0 <= k < digits.len() ==> '0' <= #[trigger] digits[k] <= '9') {
        let plus = seq!['+'] + digits;
        let zero = seq!['0'] + digits;
        assert(plus.drop_first() =~= digits);
        assert('0' <= digits[0] <= '9');
        assert(without_plus(digits) == digits);
        assert(without_plus(zero) == zero);
        lemma_leading_zero(digits);
        assert forall|k: int| 0 <= k < zero.len() implies '0' <= #[trigger] zero[k] <= '9' by {
            if k > 0 {
                assert(zero[k] == digits[k - 1]);
            }
        }
    }
    if 0 <= i < s.len() && !('0' <= s[i] <= '9') && (s[i] != '+' || i > 0) {
        let t = without_plus(s);
        if s[0] == '+' {
            assert(i > 0);
            assert(t[i - 1] == s[i]);
        } else {
            assert(t[i] == s[i]);
        }
    }
    assert(seq!['+'].drop_first() =~= Seq::empty());
}

proof fn lemma_same_rest(
    a: Seq<Seq<char>>,
    i: int,
    b: Seq<Seq<char>>,
    j: int,
    o: OptionsView,
)
    requires
        0 <= i <= a.len(),
        0 <= j <= b.len(),
        a.skip(i) == b.skip(j),
    ensures
        options_from(a, i, o) == options_from(b, j, o),
    decreases a.len() - i,
{
    assert(a.skip(i).len() == a.len() - i);
    assert(b.skip(j).len() == b.len() - j);
    if i < a.len() {
        assert(a[i] == a.skip(i)[0]);
        assert(b[j] == b.skip(j)[0]);
        if takes_value(a[i]) {
            if i + 1 < a.len() {
                assert(a[i + 1] == a.skip(i)[1]);
                assert(b[j + 1] == b.skip(j)[1]);
                assert(a.skip(i + 2) =~= a.skip(i).skip(2));
                assert(b.skip(j + 2) =~= b.skip(j).skip(2));
                lemma_same_rest(a, i + 2, b, j + 2, with_flag(o, a[i], a[i + 1]));
            }
        } else {
            assert(a.skip(i + 1) =~= a.skip(i).skip(1));
            assert(b.skip(j + 1) =~= b.skip(j).skip(1));
            lemma_same_rest(a, i + 1, b, j + 1, o);
        }
    }
}

/// Each flag sets what it is named after to the argument behind it, and what follows is
/// read as if the two were not there. An argument that is no flag is passed over, and so is
/// a flag with nothing behind it.
pub proof fn law_flags_set_their_options(
    program: Seq<char>,
    value: Seq<char>,
    rest: Seq<Seq<char>>,
    o: OptionsView,
)
    ensures
        options_from(seq![program, "--port"@, value] + rest, 1, o) == options_from(
            seq![program] + rest,
            1,
            OptionsView { port: port_of(value), ..o },
        ),
        options_from(seq![program, "--mode"@, value] + rest, 1, o) == options_from(
            seq![program] + rest,
            1,
            OptionsView { mode: value, ..o },
        ),
        options_from(seq![program, "--prompt"@, value] + rest, 1, o) == options_from(
            seq![program] + rest,
            1,
            OptionsView { prompt: value, ..o },
        ),
        value != "--port"@ && value != "--mode"@ && value != "--prompt"@ ==> options_from(
            seq![program, value] + rest,
            1,
            o,
        ) == options_from(seq![program] + rest, 1, o),
        options_from(seq![program, value], 1, o) == o,
        options_from(seq![program], 1, o) == o,
        options_from(Seq::empty(), 1, o) == o,
        default_options() == (OptionsView { port: 8000, mode: "http"@, prompt: Seq::empty() }),
{
    reveal_strlit("--port");
    reveal_strlit("--mode");
    reveal_strlit("--prompt");
    assert("--port"@.len() == 6 && "--prompt"@.len() == 8);
    assert("--port"@[2] == 'p' && "--mode"@[2] == 'm' && "--mode"@.len() == 6);
    let short = seq![program] + rest;
    assert(short.skip(1) =~= rest);
    let p = seq![program, "--port"@, value] + rest;
    assert(p.skip(3) =~= rest);
    assert(p[1] == "--port"@ && p[2] == value);
    lemma_same_rest(p, 3, short, 1, OptionsView { port: port_of(value), ..o });
    let m = seq![program, "--mode"@, value] + rest;
    assert(m.skip(3) =~= rest);
    assert(m[1] == "--mode"@ && m[2] == value);
    lemma_same_rest(m, 3, short, 1, OptionsView { mode: value, ..o });
    let q = seq![program, "--prompt"@, value] + rest;
    assert(q.skip(3) =~= rest);
    assert(q[1] == "--prompt"@ && q[2] == value);
    lemma_same_rest(q, 3, short, 1, OptionsView { prompt: value, ..o });
    let x = seq![program, value] + rest;
    assert(x.skip(2) =~= rest);
    assert(x[1] == value);
    lemma_same_rest(x, 2, short, 1, o);
    reveal_with_fuel(options_from, 3);
    assert(default_options() =~= (OptionsView {
        port: 8000,
        mode: "http"@,
        prompt: Seq::empty(),
    }));
}

} // verus!
