use crate::text::{
    decimal_len, drop_lead_trail, find_char, is_delim_str, push_char, push_decimal, push_repeat,
    spec_decimal, spec_drop_lead, spec_drop_trail, spec_first_ix, spec_is_delim, spec_lines,
    spec_repeat, spec_trim, split_lines, str_eq, trim_str,
};
use vstd::prelude::*;
use vstd::string::*;

verus! {

// ---------------------------------------------------------------------------
// Errors
// ---------------------------------------------------------------------------

/// The closed set of parse failures.  Each variant carries a fully formatted
/// diagnostic; callers branch on the kind, readers read the text.
#[derive(Debug, PartialEq)]
pub enum ParseError {
    InvalidKey(String),
    EmptyValue(String),
    InvalidValue(String),
    InvalidConfig(String),
}

pub ghost enum ParseErrorV {
    InvalidKey(Seq<char>),
    EmptyValue(Seq<char>),
    InvalidValue(Seq<char>),
    InvalidConfig(Seq<char>),
}

impl View for ParseError {
    type V = ParseErrorV;

    open spec fn view(&self) -> ParseErrorV {
        match self {
            ParseError::InvalidKey(m) => ParseErrorV::InvalidKey(m@),
            ParseError::EmptyValue(m) => ParseErrorV::EmptyValue(m@),
            ParseError::InvalidValue(m) => ParseErrorV::InvalidValue(m@),
            ParseError::InvalidConfig(m) => ParseErrorV::InvalidConfig(m@),
        }
    }
}

impl ParseError {
    /// The diagnostic text the error carries.
    pub fn message(&self) -> (r: &String)
        ensures
            self@ == ParseErrorV::InvalidKey(r@) || self@ == ParseErrorV::EmptyValue(r@)
                || self@ == ParseErrorV::InvalidValue(r@) || self@ == ParseErrorV::InvalidConfig(
                r@,
            ),
    {
        match self {
            ParseError::InvalidKey(m) => m,
            ParseError::EmptyValue(m) => m,
            ParseError::InvalidValue(m) => m,
            ParseError::InvalidConfig(m) => m,
        }
    }

    /// The rendered form, kind named first, as the diagnostics log shows it.
    pub fn render(&self) -> (r: String)
        ensures
            r@ == spec_error_render(self@),
    {
        let mut out = String::new();
        match self {
            ParseError::InvalidKey(m) => {
                out.append("Invalid key: ");
                out.append(m.as_str());
                push_char(&mut out, '\n');
            },
            ParseError::EmptyValue(m) => {
                out.append("Empty value\n");
                out.append(m.as_str());
                push_char(&mut out, '\n');
            },
            ParseError::InvalidValue(m) => {
                out.append("Invalid value: ");
                out.append(m.as_str());
                push_char(&mut out, '\n');
            },
            ParseError::InvalidConfig(m) => {
                out.append("Invalid configuration: ");
                out.append(m.as_str());
                push_char(&mut out, '\n');
            },
        }
        out
    }
}

/// The rendered form of an error: its kind, the diagnostic, a final newline.
pub open spec fn spec_error_render(e: ParseErrorV) -> Seq<char> {
    match e {
        ParseErrorV::InvalidKey(m) => "Invalid key: "@ + m + seq!['\n'],
        ParseErrorV::EmptyValue(m) => "Empty value\n"@ + m + seq!['\n'],
        ParseErrorV::InvalidValue(m) => "Invalid value: "@ + m + seq!['\n'],
        ParseErrorV::InvalidConfig(m) => "Invalid configuration: "@ + m + seq!['\n'],
    }
}

// ---------------------------------------------------------------------------
// Configuration record
// ---------------------------------------------------------------------------

/// The typed front-matter record of one article.
#[derive(Debug, PartialEq)]
pub struct Config {
    pub layout: String,
    pub base_layout: String,
    pub title: String,
    pub description: String,
    pub permalink: String,
    pub categories: Vec<String>,
    pub tags: Vec<String>,
    pub visible: bool,
}

pub ghost struct ConfigV {
    pub layout: Seq<char>,
    pub base_layout: Seq<char>,
    pub title: Seq<char>,
    pub description: Seq<char>,
    pub permalink: Seq<char>,
    pub categories: Seq<Seq<char>>,
    pub tags: Seq<Seq<char>>,
    pub visible: bool,
}

impl View for Config {
    type V = ConfigV;

    open spec fn view(&self) -> ConfigV {
        ConfigV {
            layout: self.layout@,
            base_layout: self.base_layout@,
            title: self.title@,
            description: self.description@,
            permalink: self.permalink@,
            categories: self.categories.deep_view(),
            tags: self.tags.deep_view(),
            visible: self.visible,
        }
    }
}

/// The starting record: everything empty but for the `"default"` base layout.
pub open spec fn spec_config_default() -> ConfigV {
    ConfigV {
        layout: Seq::empty(),
        base_layout: "default"@,
        title: Seq::empty(),
        description: Seq::empty(),
        permalink: Seq::empty(),
        categories: Seq::empty(),
        tags: Seq::empty(),
        visible: false,
    }
}

impl Default for Config {
    fn default() -> (r: Self)
        ensures
            r@ == spec_config_default(),
    {
        let r = Config {
            layout: String::new(),
            base_layout: String::from_str("default"),
            title: String::new(),
            description: String::new(),
            permalink: String::new(),
            categories: Vec::new(),
            tags: Vec::new(),
            visible: false,
        };
        proof {
            assert(r.categories.deep_view() =~= Seq::<Seq<char>>::empty());
            assert(r.tags.deep_view() =~= Seq::<Seq<char>>::empty());
        }
        r
    }
}

/// A record is valid exactly when both the title and the layout are set.
pub open spec fn spec_config_valid(c: ConfigV) -> bool {
    c.layout.len() > 0 && c.title.len() > 0
}

impl Config {
    pub fn is_valid(&self) -> (r: bool)
        ensures
            r == spec_config_valid(self@),
    {
        !(self.layout.as_str().is_empty() || self.title.as_str().is_empty())
    }
}

// ---------------------------------------------------------------------------
// The pointer-style diagnostic
// ---------------------------------------------------------------------------

/// `b` subtracted from `a`, floored at zero.
pub open spec fn spec_sat_sub(a: nat, b: nat) -> nat {
    if a >= b {
        (a - b) as nat
    } else {
        0
    }
}

/// `a + b`, capped at the machine's `usize::MAX` (the caret columns of a
/// diagnostic never pass the platform limit).
pub open spec fn spec_cap_add(a: nat, b: nat) -> nat {
    if a + b <= usize::MAX as nat {
        a + b
    } else {
        usize::MAX as nat
    }
}

pub fn cap_add(a: usize, b: usize) -> (r: usize)
    ensures
        r as nat == spec_cap_add(a as nat, b as nat),
{
    if a <= usize::MAX - b {
        a + b
    } else {
        usize::MAX
    }
}

/// The gutter width: two columns under 99, three under 127, four otherwise.
pub open spec fn spec_gutter(lineno: nat) -> nat {
    if lineno < 99 {
        2
    } else if lineno < 127 {
        3
    } else {
        4
    }
}

/// The whole pointer-style diagnostic: location header, blank gutter line,
/// the numbered source line, the caret underline, a blank gutter line, and
/// the message.
pub open spec fn spec_message(
    message: Seq<char>,
    path: Seq<char>,
    line: Seq<char>,
    start: nat,
    end: nat,
    lineno: nat,
) -> Seq<char> {
    let w = spec_gutter(lineno);
    let sp = spec_repeat(' ', w);
    let num = spec_decimal(lineno);
    let pad = if num.len() >= w {
        num
    } else {
        spec_repeat(' ', (w - num.len()) as nat) + num
    };
    seq!['\n'] + sp + " --> "@ + path + seq![' '] + num + seq![':'] + spec_decimal(start)
        + seq!['\n'] + sp + " |\n"@ + pad + " | "@ + line + seq!['\n'] + sp + " | "@ + spec_repeat(
        ' ',
        start,
    ) + spec_repeat('^', spec_sat_sub(end, start)) + seq!['\n'] + sp + " |\n"@ + sp + message
}

/// Renders the compiler-style diagnostic for one offending line.
#[verifier::rlimit(100)]
pub fn parse_error_message(
    message: &str,
    path: &str,
    line: &str,
    start: usize,
    end: usize,
    lineno: usize,
) -> (r: String)
    ensures
        r@ == spec_message(message@, path@, line@, start as nat, end as nat, lineno as nat),
{
    let w: usize = if lineno < 99 {
        2
    } else if lineno < 127 {
        3
    } else {
        4
    };
    let mut out = String::new();
    push_char(&mut out, '\n');
    push_repeat(&mut out, ' ', w);
    out.append(" --> ");
    out.append(path);
    push_char(&mut out, ' ');
    push_decimal(&mut out, lineno);
    push_char(&mut out, ':');
    push_decimal(&mut out, start);
    push_char(&mut out, '\n');
    push_repeat(&mut out, ' ', w);
    out.append(" |\n");
    proof {
        assert(out@ =~= seq!['\n'] + spec_repeat(' ', w as nat) + " --> "@ + path@ + seq![' ']
            + spec_decimal(lineno as nat) + seq![':'] + spec_decimal(start as nat) + seq!['\n']
            + spec_repeat(' ', w as nat) + " |\n"@);
    }
    let ghost part1 = out@;
    let nl = decimal_len(lineno);
    if nl < w {
        push_repeat(&mut out, ' ', w - nl);
    }
    push_decimal(&mut out, lineno);
    out.append(" | ");
    out.append(line);
    push_char(&mut out, '\n');
    push_repeat(&mut out, ' ', w);
    out.append(" | ");
    proof {
        let num = spec_decimal(lineno as nat);
        let pad = if num.len() >= w as nat {
            num
        } else {
            spec_repeat(' ', (w as nat - num.len()) as nat) + num
        };
        assert(out@ =~= part1 + pad + " | "@ + line@ + seq!['\n'] + spec_repeat(' ', w as nat)
            + " | "@);
    }
    let ghost part2 = out@;
    push_repeat(&mut out, ' ', start);
    if end > start {
        push_repeat(&mut out, '^', end - start);
    }
    proof {
        assert(out@ =~= part2 + spec_repeat(' ', start as nat) + spec_repeat(
            '^',
            spec_sat_sub(end as nat, start as nat),
        ));
    }
    let ghost part3 = out@;
    push_char(&mut out, '\n');
    push_repeat(&mut out, ' ', w);
    out.append(" |\n");
    push_repeat(&mut out, ' ', w);
    out.append(message);
    proof {
        assert(out@ =~= part3 + seq!['\n'] + spec_repeat(' ', w as nat) + " |\n"@ + spec_repeat(
            ' ',
            w as nat,
        ) + message@);
        assert(out@ =~= spec_message(
            message@,
            path@,
            line@,
            start as nat,
            end as nat,
            lineno as nat,
        ));
    }
    out
}

// ---------------------------------------------------------------------------
// Key/value line pieces
// ---------------------------------------------------------------------------

/// Splitting a header line at its first colon: the key to the left, the raw
/// value to the right; an empty line or a line without a colon fails.
pub open spec fn spec_parse_key(
    rest: Seq<char>,
    path: Seq<char>,
    line: Seq<char>,
    lineno: nat,
) -> Result<(Seq<char>, Seq<char>), ParseErrorV> {
    if rest.len() == 0 {
        Err(
            ParseErrorV::EmptyValue(
                spec_message(
                    "expected name of key"@,
                    path,
                    line,
                    line.len(),
                    spec_cap_add(line.len(), 5),
                    lineno,
                ),
            ),
        )
    } else {
        match spec_first_ix(rest, ':') {
            Some(i) => Ok((rest.take(i), rest.skip(i + 1))),
            None => Err(
                ParseErrorV::InvalidKey(
                    spec_message(
                        "no semicolon found"@,
                        path,
                        line,
                        line.len(),
                        spec_cap_add(line.len(), 1),
                        lineno,
                    ),
                ),
            ),
        }
    }
}

pub fn parse_key<'a>(rest: &'a str, path: &str, line: &str, lineno: usize) -> (r: Result<
    (&'a str, &'a str),
    ParseError,
>)
    ensures
        match (r, spec_parse_key(rest@, path@, line@, lineno as nat)) {
            (Ok((k, v)), Ok((sk, sv))) => k@ == sk && v@ == sv,
            (Err(e), Err(se)) => e@ == se,
            _ => false,
        },
{
    let n = rest.unicode_len();
    let ln = line.unicode_len();
    if n == 0 {
        return Err(
            ParseError::EmptyValue(
                parse_error_message(
                    "expected name of key",
                    path,
                    line,
                    ln,
                    cap_add(ln, 5),
                    lineno,
                ),
            ),
        );
    }
    match find_char(rest, ':') {
        Some(i) => Ok((rest.substring_char(0, i), rest.substring_char(i + 1, n))),
        None => Err(
            ParseError::InvalidKey(
                parse_error_message(
                    "no semicolon found",
                    path,
                    line,
                    ln,
                    cap_add(ln, 1),
                    lineno,
                ),
            ),
        ),
    }
}

/// A scalar string value: trimmed, non-empty, and not the delimiter itself.
pub open spec fn spec_value_string(
    rest: Seq<char>,
    path: Seq<char>,
    line: Seq<char>,
    lineno: nat,
) -> Result<Seq<char>, ParseErrorV> {
    let t = spec_trim(rest);
    if t.len() == 0 {
        Err(
            ParseErrorV::EmptyValue(
                spec_message(
                    "empty value"@,
                    path,
                    line,
                    line.len(),
                    spec_cap_add(line.len(), 5),
                    lineno,
                ),
            ),
        )
    } else if spec_is_delim(t) {
        Err(
            ParseErrorV::InvalidValue(
                spec_message(
                    "found '---' can't use configuration start and end identifier as a value"@,
                    path,
                    line,
                    spec_sat_sub(line.len(), 3),
                    line.len(),
                    lineno,
                ),
            ),
        )
    } else {
        Ok(t)
    }
}

pub fn parse_value_string<'a>(rest: &'a str, path: &str, line: &str, lineno: usize) -> (r: Result<
    &'a str,
    ParseError,
>)
    ensures
        match (r, spec_value_string(rest@, path@, line@, lineno as nat)) {
            (Ok(v), Ok(sv)) => v@ == sv,
            (Err(e), Err(se)) => e@ == se,
            _ => false,
        },
{
    let t = trim_str(rest);
    let ln = line.unicode_len();
    if t.unicode_len() == 0 {
        return Err(
            ParseError::EmptyValue(
                parse_error_message(
                    "empty value",
                    path,
                    line,
                    ln,
                    cap_add(ln, 5),
                    lineno,
                ),
            ),
        );
    }
    if is_delim_str(t) {
        return Err(
            ParseError::InvalidValue(
                parse_error_message(
                    "found '---' can't use configuration start and end identifier as a value",
                    path,
                    line,
                    if ln >= 3 {
                        ln - 3
                    } else {
                        0
                    },
                    ln,
                    lineno,
                ),
            ),
        );
    }
    Ok(t)
}

/// A boolean value: exactly `true` or `false`, as `str::parse::<bool>` has it.
pub open spec fn spec_value_boolean(
    rest: Seq<char>,
    path: Seq<char>,
    line: Seq<char>,
    lineno: nat,
) -> Result<bool, ParseErrorV> {
    if rest == "true"@ {
        Ok(true)
    } else if rest == "false"@ {
        Ok(false)
    } else {
        Err(
            ParseErrorV::InvalidValue(
                spec_message(
                    Seq::empty(),
                    path,
                    line,
                    spec_sat_sub(line.len(), rest.len()),
                    line.len(),
                    lineno,
                ),
            ),
        )
    }
}

pub fn parse_value_boolean(rest: &str, path: &str, line: &str, lineno: usize) -> (r: Result<
    bool,
    ParseError,
>)
    ensures
        match (r, spec_value_boolean(rest@, path@, line@, lineno as nat)) {
            (Ok(v), Ok(sv)) => v == sv,
            (Err(e), Err(se)) => e@ == se,
            _ => false,
        },
{
    if str_eq(rest, "true") {
        return Ok(true);
    }
    if str_eq(rest, "false") {
        return Ok(false);
    }
    let ln = line.unicode_len();
    let rn = rest.unicode_len();
    let start = if ln >= rn {
        ln - rn
    } else {
        0
    };
    proof {
        reveal_strlit("");
        assert(""@ =~= Seq::<char>::empty());
    }
    Err(ParseError::InvalidValue(parse_error_message("", path, line, start, ln, lineno)))
}

/// One pass over a list value, from character `i` on: `prev` is where the
/// pending element began, the two flags track the double- and single-quote
/// state, and `acc` holds the elements already cut out and validated.
pub open spec fn spec_list_scan(
    rest: Seq<char>,
    path: Seq<char>,
    line: Seq<char>,
    lineno: nat,
    i: int,
    prev: int,
    in_s: bool,
    in_sl: bool,
    acc: Seq<Seq<char>>,
) -> Result<(int, bool, bool, Seq<Seq<char>>), ParseErrorV>
    decreases rest.len() - i,
{
    if i < 0 || i >= rest.len() {
        Ok((prev, in_s, in_sl, acc))
    } else {
        let c = rest[i];
        if c == ',' && !in_s && !in_sl {
            match spec_value_string(rest.subrange(prev, i), path, line, lineno) {
                Ok(v) => spec_list_scan(rest, path, line, lineno, i + 1, i + 1, in_s, in_sl, acc.push(v)),
                Err(e) => Err(e),
            }
        } else if c == '"' && !in_sl {
            spec_list_scan(rest, path, line, lineno, i + 1, prev, !in_s, in_sl, acc)
        } else if c == '\'' && !in_s {
            spec_list_scan(rest, path, line, lineno, i + 1, prev, in_s, !in_sl, acc)
        } else {
            spec_list_scan(rest, path, line, lineno, i + 1, prev, in_s, in_sl, acc)
        }
    }
}

/// A list value: optionally bracketed, comma-separated outside quotes, each
/// element validated as a scalar string value with its quotes kept.
pub open spec fn spec_value_list(
    rest0: Seq<char>,
    path: Seq<char>,
    line: Seq<char>,
    lineno: nat,
) -> Result<Seq<Seq<char>>, ParseErrorV> {
    let t = spec_trim(rest0);
    if t.len() == 0 {
        Err(
            ParseErrorV::EmptyValue(
                spec_message("empty"@, path, line, line.len(), spec_cap_add(line.len(), 5), lineno),
            ),
        )
    } else {
        let pre: Result<Seq<char>, ParseErrorV> = if t[0] == '[' {
            if t[t.len() - 1] == ']' {
                Ok(spec_drop_trail(spec_drop_lead(t, '['), ']'))
            } else {
                Err(
                    ParseErrorV::InvalidValue(
                        spec_message(
                            "found opening square bracket for list but no opening bracket"@,
                            path,
                            line,
                            0,
                            line.len(),
                            lineno,
                        ),
                    ),
                )
            }
        } else {
            Ok(t)
        };
        match pre {
            Err(e) => Err(e),
            Ok(rest) => match spec_list_scan(
                rest,
                path,
                line,
                lineno,
                0,
                0,
                false,
                false,
                Seq::empty(),
            ) {
                Err(e) => Err(e),
                Ok((prev, in_s, in_sl, acc)) => {
                    if prev == rest.len() {
                        Err(
                            ParseErrorV::InvalidValue(
                                spec_message(
                                    "value expected after semi-colon"@,
                                    path,
                                    line,
                                    line.len(),
                                    spec_cap_add(line.len(), 5),
                                    lineno,
                                ),
                            ),
                        )
                    } else if in_s {
                        Err(
                            ParseErrorV::InvalidValue(
                                spec_message(
                                    "found a string but no closing \""@,
                                    path,
                                    line,
                                    spec_sat_sub(line.len(), 1),
                                    line.len(),
                                    lineno,
                                ),
                            ),
                        )
                    } else if in_sl {
                        Err(
                            ParseErrorV::InvalidValue(
                                spec_message(
                                    "found a string but no closing '"@,
                                    path,
                                    line,
                                    spec_sat_sub(line.len(), 1),
                                    line.len(),
                                    lineno,
                                ),
                            ),
                        )
                    } else {
                        match spec_value_string(
                            rest.subrange(prev, rest.len() as int),
                            path,
                            line,
                            lineno,
                        ) {
                            Ok(v) => Ok(acc.push(v)),
                            Err(e) => Err(e),
                        }
                    }
                },
            },
        }
    }
}

pub fn parse_value_list(rest: &str, path: &str, line: &str, lineno: usize) -> (r: Result<
    Vec<String>,
    ParseError,
>)
    ensures
        match (r, spec_value_list(rest@, path@, line@, lineno as nat)) {
            (Ok(v), Ok(sv)) => v.deep_view() == sv,
            (Err(e), Err(se)) => e@ == se,
            _ => false,
        },
{
    let t = trim_str(rest);
    let tn = t.unicode_len();
    let ln = line.unicode_len();
    if tn == 0 {
        return Err(
            ParseError::EmptyValue(
                parse_error_message("empty", path, line, ln, cap_add(ln, 5), lineno),
            ),
        );
    }
    let inner: &str = if t.get_char(0) == '[' {
        if t.get_char(tn - 1) == ']' {
            drop_lead_trail(t, '[', ']')
        } else {
            return Err(
                ParseError::InvalidValue(
                    parse_error_message(
                        "found opening square bracket for list but no opening bracket",
                        path,
                        line,
                        0,
                        ln,
                        lineno,
                    ),
                ),
            );
        }
    } else {
        t
    };
    let n = inner.unicode_len();
    let mut acc: Vec<String> = Vec::new();
    let mut prev: usize = 0;
    let mut in_s = false;
    let mut in_sl = false;
    let mut i: usize = 0;
    proof {
        assert(acc.deep_view() =~= Seq::<Seq<char>>::empty());
    }
    while i < n
        invariant
            0 <= prev <= i <= n,
            n == inner@.len(),
            ln == line@.len(),
            t@ == spec_trim(rest@),
            tn == t@.len(),
            tn > 0,
            if t@[0] == '[' {
                t@[t@.len() - 1] == ']' && inner@ == spec_drop_trail(spec_drop_lead(t@, '['), ']')
            } else {
                inner@ == t@
            },
            spec_list_scan(inner@, path@, line@, lineno as nat, 0, 0, false, false, Seq::empty())
                == spec_list_scan(
                inner@,
                path@,
                line@,
                lineno as nat,
                i as int,
                prev as int,
                in_s,
                in_sl,
                acc.deep_view(),
            ),
        decreases n - i,
    {
        let c = inner.get_char(i);
        if c == ',' && !in_s && !in_sl {
            let piece = inner.substring_char(prev, i);
            match parse_value_string(piece, path, line, lineno) {
                Ok(v) => {
                    let ghost old_acc = acc.deep_view();
                    acc.push(v.to_owned());
                    proof {
                        assert(acc.deep_view() =~= old_acc.push(v@));
                    }
                    prev = i + 1;
                },
                Err(e) => {
                    proof {
                        assert(spec_list_scan(
                            inner@,
                            path@,
                            line@,
                            lineno as nat,
                            i as int,
                            prev as int,
                            in_s,
                            in_sl,
                            acc.deep_view(),
                        ) == Err::<(int, bool, bool, Seq<Seq<char>>), ParseErrorV>(e@));
                        assert(spec_list_scan(
                            inner@,
                            path@,
                            line@,
                            lineno as nat,
                            0,
                            0,
                            false,
                            false,
                            Seq::empty(),
                        ) == Err::<(int, bool, bool, Seq<Seq<char>>), ParseErrorV>(e@));
                    }
                    return Err(e);
                },
            }
        } else if c == '"' && !in_sl {
            in_s = !in_s;
        } else if c == '\'' && !in_s {
            in_sl = !in_sl;
        }
        i = i + 1;
    }
    if prev == n {
        return Err(
            ParseError::InvalidValue(
                parse_error_message(
                    "value expected after semi-colon",
                    path,
                    line,
                    ln,
                    cap_add(ln, 5),
                    lineno,
                ),
            ),
        );
    }
    if in_s {
        return Err(
            ParseError::InvalidValue(
                parse_error_message(
                    "found a string but no closing \"",
                    path,
                    line,
                    if ln >= 1 {
                        ln - 1
                    } else {
                        0
                    },
                    ln,
                    lineno,
                ),
            ),
        );
    }
    if in_sl {
        return Err(
            ParseError::InvalidValue(
                parse_error_message(
                    "found a string but no closing '",
                    path,
                    line,
                    if ln >= 1 {
                        ln - 1
                    } else {
                        0
                    },
                    ln,
                    lineno,
                ),
            ),
        );
    }
    let piece = inner.substring_char(prev, n);
    match parse_value_string(piece, path, line, lineno) {
        Ok(v) => {
            let ghost old_acc = acc.deep_view();
            acc.push(v.to_owned());
            proof {
                assert(acc.deep_view() =~= old_acc.push(v@));
            }
            Ok(acc)
        },
        Err(e) => Err(e),
    }
}

// ---------------------------------------------------------------------------
// The three-state header machine
// ---------------------------------------------------------------------------

/// The explicit parser state: before the header, inside it, past it.
#[derive(Clone, Copy)]
pub enum ParseState {
    AwaitingHeaderStart,
    InHeader,
    InBody,
}

pub ghost struct ParseSt {
    pub state: ParseState,
    pub line_n: nat,
    pub config: ConfigV,
    pub body: Seq<char>,
}

pub open spec fn spec_init_st() -> ParseSt {
    ParseSt {
        state: ParseState::AwaitingHeaderStart,
        line_n: 1,
        config: spec_config_default(),
        body: Seq::empty(),
    }
}

/// One header line applied to the record: split at the first colon, the key
/// dispatched, the value parsed by its type.
pub open spec fn spec_header_line(
    c: ConfigV,
    line: Seq<char>,
    path: Seq<char>,
    lineno: nat,
) -> Result<ConfigV, ParseErrorV> {
    match spec_parse_key(line, path, line, lineno) {
        Err(e) => Err(e),
        Ok((key, rest)) => {
            let tr = spec_trim(rest);
            if key == "layout"@ {
                match spec_value_string(tr, path, line, lineno) {
                    Ok(v) => Ok(ConfigV { layout: v, ..c }),
                    Err(e) => Err(e),
                }
            } else if key == "base_layout"@ {
                match spec_value_string(tr, path, line, lineno) {
                    Ok(v) => Ok(ConfigV { base_layout: v, ..c }),
                    Err(e) => Err(e),
                }
            } else if key == "title"@ {
                match spec_value_string(tr, path, line, lineno) {
                    Ok(v) => Ok(ConfigV { title: v, ..c }),
                    Err(e) => Err(e),
                }
            } else if key == "description"@ {
                match spec_value_string(tr, path, line, lineno) {
                    Ok(v) => Ok(ConfigV { description: v, ..c }),
                    Err(e) => Err(e),
                }
            } else if key == "permalink"@ {
                match spec_value_string(tr, path, line, lineno) {
                    Ok(v) => Ok(ConfigV { permalink: v, ..c }),
                    Err(e) => Err(e),
                }
            } else if key == "categories"@ {
                match spec_value_list(tr, path, line, lineno) {
                    Ok(v) => Ok(ConfigV { categories: v, ..c }),
                    Err(e) => Err(e),
                }
            } else if key == "tags"@ {
                match spec_value_list(tr, path, line, lineno) {
                    Ok(v) => Ok(ConfigV { tags: v, ..c }),
                    Err(e) => Err(e),
                }
            } else if key == "visible"@ {
                match spec_value_boolean(tr, path, line, lineno) {
                    Ok(v) => Ok(ConfigV { visible: v, ..c }),
                    Err(e) => Err(e),
                }
            } else {
                Err(
                    ParseErrorV::InvalidKey(
                        spec_message("unknown key"@, path, line, 0, line.len(), lineno),
                    ),
                )
            }
        },
    }
}

/// One line fed to the machine.  A delimiter line advances the state; a
/// header line updates the record; a body line is appended with its newline.
pub open spec fn spec_step(st: ParseSt, line: Seq<char>, path: Seq<char>) -> Result<
    ParseSt,
    ParseErrorV,
> {
    match st.state {
        ParseState::AwaitingHeaderStart => {
            if spec_is_delim(line) {
                Ok(ParseSt { state: ParseState::InHeader, line_n: st.line_n + 1, ..st })
            } else {
                Err(
                    ParseErrorV::InvalidConfig(
                        spec_message(
                            "configuration needs to start with '---' for the first line"@,
                            path,
                            line,
                            0,
                            line.len(),
                            st.line_n,
                        ),
                    ),
                )
            }
        },
        ParseState::InHeader => {
            if spec_is_delim(line) {
                Ok(ParseSt { state: ParseState::InBody, line_n: st.line_n + 1, ..st })
            } else {
                match spec_header_line(st.config, line, path, st.line_n) {
                    Ok(c) => Ok(ParseSt { config: c, line_n: st.line_n + 1, ..st }),
                    Err(e) => Err(e),
                }
            }
        },
        ParseState::InBody => Ok(ParseSt { body: st.body + line + seq!['\n'], ..st }),
    }
}

pub open spec fn spec_fold(lines: Seq<Seq<char>>, st: ParseSt, path: Seq<char>) -> Result<
    ParseSt,
    ParseErrorV,
>
    decreases lines.len(),
{
    if lines.len() == 0 {
        Ok(st)
    } else {
        match spec_step(st, lines[0], path) {
            Ok(st2) => spec_fold(lines.skip(1), st2, path),
            Err(e) => Err(e),
        }
    }
}

/// The completion diagnosis, in its fixed precedence: a valid record wins;
/// then an empty header, an unclosed header, a missing title, a missing
/// layout — in that order.
pub open spec fn spec_finish(st: ParseSt, path: Seq<char>) -> Result<
    (ConfigV, Seq<char>),
    ParseErrorV,
> {
    if spec_config_valid(st.config) {
        Ok((st.config, st.body))
    } else if st.line_n <= 2 {
        Err(ParseErrorV::InvalidConfig("empty config, no key value pairs found in "@ + path))
    } else if !(st.state is InBody) {
        Err(ParseErrorV::InvalidConfig("no closing delimiter found"@))
    } else if st.config.title.len() == 0 {
        Err(ParseErrorV::InvalidConfig("missing configuration 'title' field"@))
    } else {
        Err(
            ParseErrorV::InvalidConfig(
                "missing configuration 'layout' field or 'base_layout' to be set to a custom value"@,
            ),
        )
    }
}

/// What `parse` returns on any input: the machine folded over the lines,
/// then the completion diagnosis.
pub open spec fn spec_parse(text: Seq<char>, path: Seq<char>) -> Result<
    (ConfigV, Seq<char>),
    ParseErrorV,
> {
    match spec_fold(spec_lines(text), spec_init_st(), path) {
        Ok(st) => spec_finish(st, path),
        Err(e) => Err(e),
    }
}

fn apply_header_line(config: Config, line: &str, path: &str, lineno: usize) -> (r: Result<
    Config,
    ParseError,
>)
    ensures
        match (r, spec_header_line(config@, line@, path@, lineno as nat)) {
            (Ok(c), Ok(sc)) => c@ == sc,
            (Err(e), Err(se)) => e@ == se,
            _ => false,
        },
{
    let mut config = config;
    match parse_key(line, path, line, lineno) {
        Err(e) => Err(e),
        Ok((key, rest)) => {
            let tr = trim_str(rest);
            if str_eq(key, "layout") {
                match parse_value_string(tr, path, line, lineno) {
                    Ok(v) => {
                        config.layout = v.to_owned();
                        Ok(config)
                    },
                    Err(e) => Err(e),
                }
            } else if str_eq(key, "base_layout") {
                match parse_value_string(tr, path, line, lineno) {
                    Ok(v) => {
                        config.base_layout = v.to_owned();
                        Ok(config)
                    },
                    Err(e) => Err(e),
                }
            } else if str_eq(key, "title") {
                match parse_value_string(tr, path, line, lineno) {
                    Ok(v) => {
                        config.title = v.to_owned();
                        Ok(config)
                    },
                    Err(e) => Err(e),
                }
            } else if str_eq(key, "description") {
                match parse_value_string(tr, path, line, lineno) {
                    Ok(v) => {
                        config.description = v.to_owned();
                        Ok(config)
                    },
                    Err(e) => Err(e),
                }
            } else if str_eq(key, "permalink") {
                match parse_value_string(tr, path, line, lineno) {
                    Ok(v) => {
                        config.permalink = v.to_owned();
                        Ok(config)
                    },
                    Err(e) => Err(e),
                }
            } else if str_eq(key, "categories") {
                match parse_value_list(tr, path, line, lineno) {
                    Ok(v) => {
                        config.categories = v;
                        Ok(config)
                    },
                    Err(e) => Err(e),
                }
            } else if str_eq(key, "tags") {
                match parse_value_list(tr, path, line, lineno) {
                    Ok(v) => {
                        config.tags = v;
                        Ok(config)
                    },
                    Err(e) => Err(e),
                }
            } else if str_eq(key, "visible") {
                match parse_value_boolean(tr, path, line, lineno) {
                    Ok(v) => {
                        config.visible = v;
                        Ok(config)
                    },
                    Err(e) => Err(e),
                }
            } else {
                let ln = line.unicode_len();
                Err(ParseError::InvalidKey(parse_error_message("unknown key", path, line, 0, ln, lineno)))
            }
        },
    }
}

/// Parses one source file: the delimited header into a typed record, the
/// remaining lines into the body, or the first diagnostic met.
#[verifier::rlimit(100)]
pub fn parse(text: &str, path: &str) -> (r: Result<(Config, String), ParseError>)
    ensures
        match (r, spec_parse(text@, path@)) {
            (Ok((c, b)), Ok((sc, sb))) => c@ == sc && b@ == sb,
            (Err(e), Err(se)) => e@ == se,
            _ => false,
        },
{
    let lines = split_lines(text);
    let nl = lines.len();
    let mut state = ParseState::AwaitingHeaderStart;
    let mut line_n: usize = 1;
    let mut config = Config::default();
    let mut body = String::new();
    let ghost mut gst: ParseSt = spec_init_st();
    proof {
        assert(lines.deep_view().skip(0) =~= lines.deep_view());
    }
    let mut i: usize = 0;
    while i < nl
        invariant
            0 <= i <= nl,
            nl == lines@.len(),
            nl == lines.deep_view().len(),
            lines.deep_view() == spec_lines(text@),
            spec_fold(spec_lines(text@), spec_init_st(), path@) == spec_fold(
                lines.deep_view().skip(i as int),
                gst,
                path@,
            ),
            gst.state == state,
            gst.config == config@,
            gst.body == body@,
            gst.line_n <= i + 1,
            line_n as nat == if gst.line_n <= usize::MAX as nat {
                gst.line_n
            } else {
                usize::MAX as nat
            },
        decreases nl - i,
    {
        let line: &str = lines[i];
        proof {
            assert(lines.deep_view()[i as int] == line@);
            assert(lines.deep_view().skip(i as int)[0] == line@);
            assert(gst.line_n <= usize::MAX as nat);
            assert(line_n as nat == gst.line_n);
        }
        let ghost prefix = lines.deep_view().skip(i as int);
        match state {
            ParseState::AwaitingHeaderStart => {
                if is_delim_str(line) {
                    state = ParseState::InHeader;
                    if line_n < usize::MAX {
                        line_n = line_n + 1;
                    }
                    proof {
                        gst = ParseSt { state: ParseState::InHeader, line_n: gst.line_n + 1, ..gst };
                    }
                } else {
                    let ln = line.unicode_len();
                    let e = ParseError::InvalidConfig(
                        parse_error_message(
                            "configuration needs to start with '---' for the first line",
                            path,
                            line,
                            0,
                            ln,
                            line_n,
                        ),
                    );
                    proof {
                        assert(spec_fold(prefix, gst, path@) == Err::<ParseSt, ParseErrorV>(e@));
                    }
                    return Err(e);
                }
            },
            ParseState::InHeader => {
                if is_delim_str(line) {
                    state = ParseState::InBody;
                    if line_n < usize::MAX {
                        line_n = line_n + 1;
                    }
                    proof {
                        gst = ParseSt { state: ParseState::InBody, line_n: gst.line_n + 1, ..gst };
                    }
                } else {
                    config = match apply_header_line(config, line, path, line_n) {
                        Ok(c) => c,
                        Err(e) => {
                            proof {
                                assert(spec_fold(prefix, gst, path@) == Err::<
                                    ParseSt,
                                    ParseErrorV,
                                >(e@));
                            }
                            return Err(e);
                        },
                    };
                    if line_n < usize::MAX {
                        line_n = line_n + 1;
                    }
                    proof {
                        gst = ParseSt { config: config@, line_n: gst.line_n + 1, ..gst };
                    }
                }
            },
            ParseState::InBody => {
                body.append(line);
                push_char(&mut body, '\n');
                proof {
                    gst = ParseSt { body: gst.body + line@ + seq!['\n'], ..gst };
                }
            },
        }
        i = i + 1;
        proof {
            assert(prefix.skip(1) =~= lines.deep_view().skip(i as int));
        }
    }
    proof {
        assert(lines.deep_view().skip(nl as int).len() == 0);
        assert(spec_fold(lines.deep_view().skip(nl as int), gst, path@) == Ok::<
            ParseSt,
            ParseErrorV,
        >(gst));
        assert((line_n <= 2) == (gst.line_n <= 2));
    }
    if config.is_valid() {
        Ok((config, body))
    } else if line_n <= 2 {
        let mut m = String::new();
        m.append("empty config, no key value pairs found in ");
        m.append(path);
        Err(ParseError::InvalidConfig(m))
    } else {
        match state {
            ParseState::InBody => {
                if config.title.as_str().is_empty() {
                    Err(
                        ParseError::InvalidConfig(
                            String::from_str("missing configuration 'title' field"),
                        ),
                    )
                } else {
                    Err(
                        ParseError::InvalidConfig(
                            String::from_str(
                                "missing configuration 'layout' field or 'base_layout' to be set to a custom value",
                            ),
                        ),
                    )
                }
            },
            _ => Err(ParseError::InvalidConfig(String::from_str("no closing delimiter found"))),
        }
    }
}

// ---------------------------------------------------------------------------
// The round trip
// ---------------------------------------------------------------------------

/// A scalar value in the form the header writes it back: its own trim, with
/// at least one character, not the delimiter, and on one line.
pub open spec fn spec_plain_value(v: Seq<char>) -> bool {
    spec_trim(v) == v && v.len() > 0 && !spec_is_delim(v) && !v.contains('\n') && !v.contains(
        '\r',
    )
}

/// A header block carrying the two required fields and one tag.
pub open spec fn spec_header_block(layout: Seq<char>, title: Seq<char>, tag: Seq<char>) -> Seq<
    char,
> {
    seq!['-', '-', '-', '\n', 'l', 'a', 'y', 'o', 'u', 't', ':'] + layout + seq!['\n', 't', 'i', 't', 'l', 'e', ':']
        + title + seq!['\n', 't', 'a', 'g', 's', ':'] + tag + seq!['\n', '-', '-', '-']
}

proof fn lemma_lines_cons(a: Seq<char>, rest: Seq<char>)
    requires
        forall|k: int| 0 <= k < a.len() ==> a[k] != '\n',
    ensures
        spec_lines(a + seq!['\n'] + rest) == seq![crate::text::spec_strip_cr(a)] + spec_lines(
            rest,
        ),
{
    let s = a + seq!['\n'] + rest;
    assert(s.len() > 0);
    assert(s[a.len() as int] == '\n');
    assert(forall|k: int| 0 <= k < a.len() ==> s[k] == a[k]);
    crate::text::lemma_first_ix_found(s, '\n', a.len() as int);
    assert(s.take(a.len() as int) =~= a);
    assert(s.skip(a.len() as int + 1) =~= rest);
}

proof fn lemma_scan_plain(
    rest: Seq<char>,
    path: Seq<char>,
    line: Seq<char>,
    lineno: nat,
    i: int,
    prev: int,
    acc: Seq<Seq<char>>,
)
    requires
        0 <= prev <= i <= rest.len(),
        forall|k: int| i <= k < rest.len() ==> rest[k] != ',' && rest[k] != '"' && rest[k] != '\'',
    ensures
        spec_list_scan(rest, path, line, lineno, i, prev, false, false, acc) == Ok::<
            (int, bool, bool, Seq<Seq<char>>),
            ParseErrorV,
        >((prev, false, false, acc)),
    decreases rest.len() - i,
{
    if i < rest.len() {
        lemma_scan_plain(rest, path, line, lineno, i + 1, prev, acc);
    }
}

pub open spec fn spec_rt_layout_line(layout: Seq<char>) -> Seq<char> {
    seq!['l', 'a', 'y', 'o', 'u', 't', ':'] + layout
}

pub open spec fn spec_rt_title_line(title: Seq<char>) -> Seq<char> {
    seq!['t', 'i', 't', 'l', 'e', ':'] + title
}

pub open spec fn spec_rt_tags_line(tag: Seq<char>) -> Seq<char> {
    seq!['t', 'a', 'g', 's', ':'] + tag
}

proof fn lemma_rt_lines(layout: Seq<char>, title: Seq<char>, tag: Seq<char>)
    requires
        spec_plain_value(layout),
        spec_plain_value(title),
        spec_plain_value(tag),
    ensures
        spec_lines(spec_header_block(layout, title, tag)) == seq![
            seq!['-', '-', '-'],
            spec_rt_layout_line(layout),
            spec_rt_title_line(title),
            spec_rt_tags_line(tag),
            seq!['-', '-', '-'],
        ],
{
    let text = spec_header_block(layout, title, tag);
    let d = seq!['-', '-', '-'];
    let l2 = spec_rt_layout_line(layout);
    let l3 = spec_rt_title_line(title);
    let l4 = spec_rt_tags_line(tag);
    assert(forall|k: int| 0 <= k < layout.len() ==> layout[k] != '\n' && layout[k] != '\r') by {
        assert(forall|k: int| 0 <= k < layout.len() ==> layout.contains(layout[k]));
    }
    assert(forall|k: int| 0 <= k < title.len() ==> title[k] != '\n' && title[k] != '\r') by {
        assert(forall|k: int| 0 <= k < title.len() ==> title.contains(title[k]));
    }
    assert(forall|k: int| 0 <= k < tag.len() ==> tag[k] != '\n' && tag[k] != '\r') by {
        assert(forall|k: int| 0 <= k < tag.len() ==> tag.contains(tag[k]));
    }
    assert(text =~= d + seq!['\n'] + (l2 + seq!['\n'] + (l3 + seq!['\n'] + (l4 + seq!['\n']
        + d))));
    lemma_lines_cons(d, l2 + seq!['\n'] + (l3 + seq!['\n'] + (l4 + seq!['\n'] + d)));
    lemma_lines_cons(l2, l3 + seq!['\n'] + (l4 + seq!['\n'] + d));
    lemma_lines_cons(l3, l4 + seq!['\n'] + d);
    lemma_lines_cons(l4, d);
    assert(crate::text::spec_strip_cr(d) == d);
    assert(crate::text::spec_strip_cr(l2) =~= l2);
    assert(crate::text::spec_strip_cr(l3) =~= l3);
    assert(crate::text::spec_strip_cr(l4) =~= l4);
    assert(spec_lines(d) == seq![d]) by {
        crate::text::lemma_first_ix_none(d, '\n');
    }
    assert(spec_lines(text) =~= seq![d, l2, l3, l4, d]);
}

proof fn lemma_rt_layout_step(c: ConfigV, layout: Seq<char>, path: Seq<char>, n: nat)
    requires
        spec_plain_value(layout),
    ensures
        spec_header_line(c, spec_rt_layout_line(layout), path, n) == Ok::<ConfigV, ParseErrorV>(
            ConfigV { layout, ..c },
        ),
{
    reveal_strlit("layout");
    let l2 = spec_rt_layout_line(layout);
    assert(l2[6] == ':' && (forall|k: int| 0 <= k < 6 ==> l2[k] != ':'));
    crate::text::lemma_first_ix_found(l2, ':', 6);
    assert(l2.take(6) =~= "layout"@);
    assert(l2.skip(7) =~= layout);
    assert(spec_trim(layout) == layout);
    assert(spec_value_string(layout, path, l2, n) == Ok::<Seq<char>, ParseErrorV>(layout));
}

proof fn lemma_rt_title_step(c: ConfigV, title: Seq<char>, path: Seq<char>, n: nat)
    requires
        spec_plain_value(title),
    ensures
        spec_header_line(c, spec_rt_title_line(title), path, n) == Ok::<ConfigV, ParseErrorV>(
            ConfigV { title, ..c },
        ),
{
    reveal_strlit("layout");
    reveal_strlit("base_layout");
    reveal_strlit("title");
    let l3 = spec_rt_title_line(title);
    assert(l3[5] == ':' && (forall|k: int| 0 <= k < 5 ==> l3[k] != ':'));
    crate::text::lemma_first_ix_found(l3, ':', 5);
    assert(l3.take(5) =~= "title"@);
    assert(l3.skip(6) =~= title);
    assert(l3.take(5) != "layout"@ && l3.take(5) != "base_layout"@);
    assert(spec_trim(title) == title);
    assert(spec_value_string(title, path, l3, n) == Ok::<Seq<char>, ParseErrorV>(title));
}

#[verifier::rlimit(100)]
proof fn lemma_rt_tags_step(c: ConfigV, tag: Seq<char>, path: Seq<char>, n: nat)
    requires
        spec_plain_value(tag),
        spec_value_list(tag, path, spec_rt_tags_line(tag), n) == Ok::<Seq<Seq<char>>, ParseErrorV>(
            seq![tag],
        ),
    ensures
        spec_header_line(c, spec_rt_tags_line(tag), path, n) == Ok::<ConfigV, ParseErrorV>(
            ConfigV { tags: seq![tag], ..c },
        ),
{
    reveal_strlit("layout");
    reveal_strlit("base_layout");
    reveal_strlit("title");
    reveal_strlit("description");
    reveal_strlit("permalink");
    reveal_strlit("categories");
    reveal_strlit("tags");
    let l4 = spec_rt_tags_line(tag);
    assert(l4[4] == ':' && (forall|k: int| 0 <= k < 4 ==> l4[k] != ':'));
    crate::text::lemma_first_ix_found(l4, ':', 4);
    assert(l4.take(4) =~= "tags"@);
    assert(l4.skip(5) =~= tag);
    assert(l4.take(4) != "layout"@ && l4.take(4) != "base_layout"@ && l4.take(4) != "title"@
        && l4.take(4) != "description"@ && l4.take(4) != "permalink"@ && l4.take(4)
        != "categories"@);
    assert(spec_trim(tag) == tag);
}

/// A list value made of one plain element reads back as that element.
proof fn lemma_plain_tag_list(tag: Seq<char>, path: Seq<char>, n: nat)
    requires
        spec_plain_value(tag),
        !tag.contains(','),
        !tag.contains('"'),
        !tag.contains('\''),
        tag[0] != '[',
    ensures
        spec_value_list(tag, path, spec_rt_tags_line(tag), n) == Ok::<Seq<Seq<char>>, ParseErrorV>(
            seq![tag],
        ),
{
    let l4 = spec_rt_tags_line(tag);
    assert(spec_trim(tag) == tag);
    assert(forall|k: int| 0 <= k < tag.len() ==> tag[k] != ',' && tag[k] != '"' && tag[k] != '\'')
        by {
        assert(forall|k: int| 0 <= k < tag.len() ==> tag.contains(tag[k]));
    }
    lemma_scan_plain(tag, path, l4, n, 0, 0, Seq::empty());
    assert(tag.subrange(0, tag.len() as int) =~= tag);
    assert(spec_value_string(tag, path, l4, n) == Ok::<Seq<char>, ParseErrorV>(tag));
    assert(Seq::empty().push(tag) =~= seq![tag]);
}

proof fn lemma_scan_quoted(
    rest: Seq<char>,
    path: Seq<char>,
    line: Seq<char>,
    lineno: nat,
    i: int,
)
    requires
        rest.len() >= 2,
        rest[0] == '\'',
        rest[rest.len() - 1] == '\'',
        forall|k: int| 0 < k < rest.len() - 1 ==> rest[k] != '\'' && rest[k] != '"',
        1 <= i <= rest.len() - 1,
    ensures
        spec_list_scan(rest, path, line, lineno, i, 0, false, true, Seq::empty()) == Ok::<
            (int, bool, bool, Seq<Seq<char>>),
            ParseErrorV,
        >((0, false, false, Seq::empty())),
    decreases rest.len() - i,
{
    if i == rest.len() - 1 {
        assert(spec_list_scan(rest, path, line, lineno, rest.len() as int, 0, false, false, Seq::empty())
            == Ok::<(int, bool, bool, Seq<Seq<char>>), ParseErrorV>((0, false, false, Seq::empty())));
    } else {
        lemma_scan_quoted(rest, path, line, lineno, i + 1);
    }
}

/// A list value made of one single-quoted element — commas inside the
/// matched quotes included — reads back as that element, quotes kept.
proof fn lemma_quoted_tag_list(tag: Seq<char>, path: Seq<char>, n: nat)
    requires
        spec_plain_value(tag),
        tag.len() >= 2,
        tag[0] == '\'',
        tag[tag.len() - 1] == '\'',
        forall|k: int| 0 < k < tag.len() - 1 ==> tag[k] != '\'' && tag[k] != '"',
    ensures
        spec_value_list(tag, path, spec_rt_tags_line(tag), n) == Ok::<Seq<Seq<char>>, ParseErrorV>(
            seq![tag],
        ),
{
    let l4 = spec_rt_tags_line(tag);
    assert(spec_trim(tag) == tag);
    lemma_scan_quoted(tag, path, l4, n, 1);
    assert(spec_list_scan(tag, path, l4, n, 0, 0, false, false, Seq::empty()) == Ok::<
        (int, bool, bool, Seq<Seq<char>>),
        ParseErrorV,
    >((0, false, false, Seq::empty())));
    assert(tag.subrange(0, tag.len() as int) =~= tag);
    assert(spec_value_string(tag, path, l4, n) == Ok::<Seq<char>, ParseErrorV>(tag));
    assert(Seq::empty().push(tag) =~= seq![tag]);
}

/// The round trip of a valid header block: writing the required fields and
/// one tag as header lines and parsing them back yields exactly the values
/// supplied, with an empty body.  (Stated for values in the form the header
/// writes them: trimmed, non-empty, on one line, not the delimiter; the tag
/// also without commas, quotes or a leading bracket, so that the list
/// grammar reads it back as the one element.)
proof fn lemma_fold_step(lines: Seq<Seq<char>>, st: ParseSt, st2: ParseSt, path: Seq<char>)
    requires
        lines.len() > 0,
        spec_step(st, lines[0], path) == Ok::<ParseSt, ParseErrorV>(st2),
    ensures
        spec_fold(lines, st, path) == spec_fold(lines.skip(1), st2, path),
{
}

proof fn lemma_step_open(st: ParseSt, path: Seq<char>)
    requires
        st.state is AwaitingHeaderStart,
    ensures
        spec_step(st, seq!['-', '-', '-'], path) == Ok::<ParseSt, ParseErrorV>(
            ParseSt { state: ParseState::InHeader, line_n: st.line_n + 1, ..st },
        ),
{
}

proof fn lemma_step_close(st: ParseSt, path: Seq<char>)
    requires
        st.state is InHeader,
    ensures
        spec_step(st, seq!['-', '-', '-'], path) == Ok::<ParseSt, ParseErrorV>(
            ParseSt { state: ParseState::InBody, line_n: st.line_n + 1, ..st },
        ),
{
}

proof fn lemma_step_header(st: ParseSt, line: Seq<char>, c2: ConfigV, path: Seq<char>)
    requires
        st.state is InHeader,
        !spec_is_delim(line),
        spec_header_line(st.config, line, path, st.line_n) == Ok::<ConfigV, ParseErrorV>(c2),
    ensures
        spec_step(st, line, path) == Ok::<ParseSt, ParseErrorV>(
            ParseSt { config: c2, line_n: st.line_n + 1, ..st },
        ),
{
}

/// The round trip of a valid header block: writing the required fields and
/// one tag as header lines and parsing them back yields exactly the values
/// supplied, with an empty body.  (Stated for values in the form the header
/// writes them: trimmed, non-empty, on one line, not the delimiter; the tag
/// also without commas, quotes or a leading bracket, so that the list
/// grammar reads it back as the one element.)
#[verifier::rlimit(100)]
proof fn lemma_header_round_trip_inner(
    layout: Seq<char>,
    title: Seq<char>,
    tag: Seq<char>,
    path: Seq<char>,
)
    requires
        spec_plain_value(layout),
        spec_plain_value(title),
        spec_plain_value(tag),
        spec_value_list(tag, path, spec_rt_tags_line(tag), 4) == Ok::<
            Seq<Seq<char>>,
            ParseErrorV,
        >(seq![tag]),
    ensures
        match spec_parse(spec_header_block(layout, title, tag), path) {
            Ok((c, body)) => c.layout == layout && c.title == title && c.tags == seq![tag]
                && c.base_layout == "default"@ && body == Seq::<char>::empty(),
            Err(_) => false,
        },
{
    let d = seq!['-', '-', '-'];
    let l2 = spec_rt_layout_line(layout);
    let l3 = spec_rt_title_line(title);
    let l4 = spec_rt_tags_line(tag);
    lemma_rt_lines(layout, title, tag);
    let lines = spec_lines(spec_header_block(layout, title, tag));

    let st0 = spec_init_st();
    let st1 = ParseSt { state: ParseState::InHeader, line_n: 2, ..st0 };
    let c1 = ConfigV { layout, ..spec_config_default() };
    let st2 = ParseSt { state: ParseState::InHeader, line_n: 3, config: c1, body: st0.body };
    let c2 = ConfigV { title, ..c1 };
    let st3 = ParseSt { state: ParseState::InHeader, line_n: 4, config: c2, body: st0.body };
    let c3 = ConfigV { tags: seq![tag], ..c2 };
    let st4 = ParseSt { state: ParseState::InHeader, line_n: 5, config: c3, body: st0.body };
    let st5 = ParseSt { state: ParseState::InBody, line_n: 6, config: c3, body: st0.body };

    assert(spec_fold(lines, st0, path) == spec_fold(lines.skip(1), st1, path)) by {
        lemma_step_open(st0, path);
        lemma_fold_step(lines, st0, st1, path);
    }
    assert(lines.skip(1) =~= seq![l2, l3, l4, d]);
    assert(spec_fold(seq![l2, l3, l4, d], st1, path) == spec_fold(seq![l3, l4, d], st2, path)) by {
        assert(!spec_is_delim(l2)) by {
            assert(l2.len() > 7);
        }
        lemma_rt_layout_step(st1.config, layout, path, 2);
        lemma_step_header(st1, l2, c1, path);
        lemma_fold_step(seq![l2, l3, l4, d], st1, st2, path);
        assert(seq![l2, l3, l4, d].skip(1) =~= seq![l3, l4, d]);
    }
    assert(spec_fold(seq![l3, l4, d], st2, path) == spec_fold(seq![l4, d], st3, path)) by {
        assert(!spec_is_delim(l3)) by {
            assert(l3.len() > 6);
        }
        lemma_rt_title_step(st2.config, title, path, 3);
        lemma_step_header(st2, l3, c2, path);
        lemma_fold_step(seq![l3, l4, d], st2, st3, path);
        assert(seq![l3, l4, d].skip(1) =~= seq![l4, d]);
    }
    assert(spec_fold(seq![l4, d], st3, path) == spec_fold(seq![d], st4, path)) by {
        assert(!spec_is_delim(l4)) by {
            assert(l4.len() > 5);
        }
        lemma_rt_tags_step(st3.config, tag, path, 4);
        lemma_step_header(st3, l4, c3, path);
        lemma_fold_step(seq![l4, d], st3, st4, path);
        assert(seq![l4, d].skip(1) =~= seq![d]);
    }
    assert(spec_fold(seq![d], st4, path) == Ok::<ParseSt, ParseErrorV>(st5)) by {
        lemma_step_close(st4, path);
        lemma_fold_step(seq![d], st4, st5, path);
        assert(seq![d].skip(1) =~= Seq::<Seq<char>>::empty());
        assert(spec_fold(seq![d].skip(1), st5, path) == Ok::<ParseSt, ParseErrorV>(st5));
    }
    assert(spec_fold(lines, st0, path) == Ok::<ParseSt, ParseErrorV>(st5));
    assert(spec_config_valid(st5.config));
    assert(st5.body == Seq::<char>::empty());
    assert(spec_finish(st5, path) == Ok::<(ConfigV, Seq<char>), ParseErrorV>((c3, st5.body)));
}

/// The round trip of a valid header block: writing the required fields and
/// one tag as header lines and parsing them back yields exactly the values
/// supplied, with an empty body.  (Stated for values in the form the header
/// writes them: trimmed, non-empty, on one line, not the delimiter; the tag
/// here also without commas, quotes or a leading bracket, so that the list
/// grammar reads it back as the one element.)
pub proof fn lemma_header_round_trip(
    layout: Seq<char>,
    title: Seq<char>,
    tag: Seq<char>,
    path: Seq<char>,
)
    requires
        spec_plain_value(layout),
        spec_plain_value(title),
        spec_plain_value(tag),
        !tag.contains(','),
        !tag.contains('"'),
        !tag.contains('\''),
        tag[0] != '[',
    ensures
        match spec_parse(spec_header_block(layout, title, tag), path) {
            Ok((c, body)) => c.layout == layout && c.title == title && c.tags == seq![tag]
                && c.base_layout == "default"@ && body == Seq::<char>::empty(),
            Err(_) => false,
        },
{
    lemma_plain_tag_list(tag, path, 4);
    lemma_header_round_trip_inner(layout, title, tag, path);
}

/// The same round trip for a single-quoted tag: a comma inside the matched
/// quotes does not split the element, and the quote characters are kept in
/// the value that parsing returns.
pub proof fn lemma_header_round_trip_quoted_tag(
    layout: Seq<char>,
    title: Seq<char>,
    tag: Seq<char>,
    path: Seq<char>,
)
    requires
        spec_plain_value(layout),
        spec_plain_value(title),
        spec_plain_value(tag),
        tag.len() >= 2,
        tag[0] == '\'',
        tag[tag.len() - 1] == '\'',
        forall|k: int| 0 < k < tag.len() - 1 ==> tag[k] != '\'' && tag[k] != '"',
    ensures
        match spec_parse(spec_header_block(layout, title, tag), path) {
            Ok((c, body)) => c.layout == layout && c.title == title && c.tags == seq![tag]
                && c.base_layout == "default"@ && body == Seq::<char>::empty(),
            Err(_) => false,
        },
{
    lemma_quoted_tag_list(tag, path, 4);
    lemma_header_round_trip_inner(layout, title, tag, path);
}


} // verus!
