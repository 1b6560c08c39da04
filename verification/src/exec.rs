//! The command line that is handed to the remote shell.

use vstd::prelude::*;
use vstd::string::*;

use crate::text::{
    chars_of, concatenate, eq_chars, join, joined, same_text, split_first, string_of, texts,
};

verus! {

broadcast use vstd::string::group_string_axioms;

// ---------------------------------------------------------------------
// Variable references
// ---------------------------------------------------------------------

/// A byte that can begin a variable name: an ASCII letter or `_`.
pub open spec fn ident_start(b: u8) -> bool {
    (0x41 <= b <= 0x5a) || (0x61 <= b <= 0x7a) || b == 0x5f
}

/// A byte that can continue a variable name: an ASCII letter, digit or `_`.
pub open spec fn ident_cont(b: u8) -> bool {
    ident_start(b) || (0x30 <= b <= 0x39)
}

/// Decides [`ident_start`].
pub fn is_ident_start(b: u8) -> (r: bool)
    ensures
        r == ident_start(b),
{
    (0x41 <= b && b <= 0x5a) || (0x61 <= b && b <= 0x7a) || b == 0x5f
}

/// Decides [`ident_cont`].
pub fn is_ident_cont(b: u8) -> (r: bool)
    ensures
        r == ident_cont(b),
{
    is_ident_start(b) || (0x30 <= b && b <= 0x39)
}

/// A character that can begin a variable name.
pub open spec fn name_start(c: char) -> bool {
    c <= '\u{7f}' && ident_start(c as u8)
}

/// A character that can continue a variable name.
pub open spec fn name_cont(c: char) -> bool {
    c <= '\u{7f}' && ident_cont(c as u8)
}

/// Where the run of name characters that begins at `i` ends.
pub open spec fn name_end(s: Seq<char>, i: int) -> int
    decreases s.len() - i,
{
    if 0 <= i < s.len() && name_cont(s[i]) {
        name_end(s, i + 1)
    } else {
        i
    }
}

/// Whether a reference `$NAME` to one of `names` stands at `i`.
pub open spec fn is_reference(s: Seq<char>, names: Seq<Seq<char>>, i: int) -> bool {
    &&& 0 <= i
    &&& i + 1 < s.len()
    &&& s[i] == '$'
    &&& name_start(s[i + 1])
    &&& names.contains(s.subrange(i + 1, name_end(s, i + 1)))
}

proof fn name_end_bounds(s: Seq<char>, i: int)
    requires
        0 <= i <= s.len(),
    ensures
        i <= name_end(s, i) <= s.len(),
    decreases s.len() - i,
{
    if i < s.len() && name_cont(s[i]) {
        name_end_bounds(s, i + 1);
    }
}

/// The text from `i` on, each reference `$NAME` to one of `names` written as
/// `%NAME%` and every other character as it is.
pub open spec fn rewritten_from(s: Seq<char>, names: Seq<Seq<char>>, i: int) -> Seq<char>
    decreases s.len() - i,
    via rewritten_from_decreases
{
    if i >= s.len() {
        Seq::empty()
    } else if is_reference(s, names, i) {
        let end = name_end(s, i + 1);
        seq!['%'] + s.subrange(i + 1, end) + seq!['%'] + rewritten_from(s, names, end)
    } else {
        seq![s[i]] + rewritten_from(s, names, i + 1)
    }
}

#[via_fn]
proof fn rewritten_from_decreases(s: Seq<char>, names: Seq<Seq<char>>, i: int) {
    if is_reference(s, names, i) {
        name_end_bounds(s, i + 1);
    }
}

/// A command with its references to `names` in the syntax of `cmd.exe`.
pub open spec fn rewritten(command: Seq<char>, names: Seq<Seq<char>>) -> Seq<char> {
    rewritten_from(command, names, 0)
}

/// Whether `name` is among `names`.
fn is_among(name: &[char], names: &[String]) -> (r: bool)
    ensures
        r == texts(names@).contains(name@),
{
    let mut i: usize = 0;
    while i < names.len()
        invariant
            i <= names@.len(),
            forall|j: int| 0 <= j < i ==> texts(names@)[j] != name@,
        decreases names@.len() - i,
    {
        let n = chars_of(names[i].as_str());
        assert(texts(names@)[i as int] == n@);
        if eq_chars(n.as_slice(), name) {
            return true;
        }
        i = i + 1;
    }
    false
}

fn is_name_cont(c: char) -> (r: bool)
    ensures
        r == name_cont(c),
{
    c <= '\u{7f}' && is_ident_cont(c as u8)
}

/// Rewrites references `$NAME` to the declared variables as `%NAME%`, for
/// `cmd.exe`. A name is an ASCII letter or `_` and the letters, digits and
/// `_` that follow it. All other text stays as it is.
pub fn rewrite_dollar_refs_for_cmd(cmd: &str, env_names: &[String]) -> (r: String)
    ensures
        r@ == rewritten(cmd@, texts(env_names@)),
{
    let all = chars_of(cmd);
    let s: &[char] = all.as_slice();
    let ghost names = texts(env_names@);
    let mut out = String::new();
    let mut i: usize = 0;
    assert(out@ + rewritten_from(s@, names, 0) =~= rewritten_from(s@, names, 0));
    while i < s.len()
        invariant
            i <= s@.len(),
            s@ == cmd@,
            names == texts(env_names@),
            out@ + rewritten_from(s@, names, i as int) == rewritten_from(s@, names, 0),
        decreases s@.len() - i,
    {
        let ghost before = out@;
        assert(s.len() <= usize::MAX);
        if s[i] == '$' && i + 1 < s.len() && s[i + 1] <= '\u{7f}' && is_ident_start(
            s[i + 1] as u8,
        ) {
            let mut end: usize = i + 1;
            while end < s.len() && is_name_cont(s[end])
                invariant
                    i + 1 <= end <= s@.len(),
                    name_end(s@, end as int) == name_end(s@, i + 1),
                decreases s@.len() - end,
            {
                end = end + 1;
            }
            let name: &[char] = vstd::slice::slice_subrange(s, i + 1, end);
            if is_among(name, env_names) {
                assert(end > i) by {
                    name_end_bounds(s@, i + 1);
                }
                let text = string_of(name);
                out.push('%');
                out.append(text.as_str());
                out.push('%');
                proof {
                    assert(is_reference(s@, names, i as int));
                    assert(out@ + rewritten_from(s@, names, end as int) =~= before
                        + rewritten_from(s@, names, i as int));
                }
                i = end;
                continue;
            }
        }
        out.push(s[i]);
        proof {
            assert(!is_reference(s@, names, i as int));
            assert(out@ + rewritten_from(s@, names, i + 1) =~= before + rewritten_from(
                s@,
                names,
                i as int,
            ));
        }
        i = i + 1;
    }
    assert(out@ + Seq::<char>::empty() =~= out@);
    out
}

// ---------------------------------------------------------------------
// Assignments before the command
// ---------------------------------------------------------------------

/// The assignments, each followed by the separator of the shell.
pub open spec fn env_prefix(parts: Seq<Seq<char>>, shell: Seq<char>) -> Seq<char> {
    if parts.len() == 0 {
        Seq::empty()
    } else {
        let sep = if shell == "cmd"@ {
            " & "@
        } else {
            "; "@
        };
        joined(parts, sep) + sep
    }
}

/// Joins the assignments that stand before the command: with ` & ` for
/// `cmd.exe`, with `; ` for any other shell, and once more at the end.
pub fn build_exec_env_prefix(parts: &[String], shell: &str) -> (r: String)
    ensures
        r@ == env_prefix(texts(parts@), shell@),
{
    if parts.len() == 0 {
        return String::new();
    }
    let sep = if same_text(shell, "cmd") {
        " & "
    } else {
        "; "
    };
    let all = join(parts, sep);
    concatenate(all.as_str(), sep)
}

/// A variable for the remote command and the value it gets.
pub struct EnvBinding {
    pub name: String,
    pub value: String,
}

/// The value of the first entry of `env` with this name.
pub open spec fn env_value(env: Seq<(String, String)>, name: Seq<char>) -> Option<Seq<char>>
    decreases env.len(),
{
    if env.len() == 0 {
        None
    } else if env[0].0@ == name {
        Some(env[0].1@)
    } else {
        env_value(env.skip(1), name)
    }
}

/// What one variable spec binds: `NAME=value` binds the value, a bare name
/// binds what the local environment holds under it, if anything.
pub open spec fn binding(spec: Seq<char>, env: Seq<(String, String)>) -> Option<
    (Seq<char>, Seq<char>),
> {
    match crate::text::cut_first(spec, '=') {
        Some((name, value)) => Some((name, value)),
        None => match env_value(env, spec) {
            Some(v) => Some((spec, v)),
            None => None,
        },
    }
}

/// What the specs bind, in order; specs that bind nothing are left out.
pub open spec fn bindings(specs: Seq<Seq<char>>, env: Seq<(String, String)>) -> Seq<
    (Seq<char>, Seq<char>),
>
    decreases specs.len(),
{
    if specs.len() == 0 {
        Seq::empty()
    } else {
        let head = bindings(specs.drop_last(), env);
        match binding(specs.last(), env) {
            Some(b) => head.push(b),
            None => head,
        }
    }
}

/// Name and value of each variable.
pub open spec fn binding_model(b: Seq<EnvBinding>) -> Seq<(Seq<char>, Seq<char>)> {
    b.map_values(|e: EnvBinding| (e.name@, e.value@))
}

fn lookup(env: &Vec<(String, String)>, name: &str) -> (r: Option<String>)
    ensures
        crate::text::opt_text(r) == env_value(env@, name@),
{
    assert(env@.skip(0) =~= env@);
    let mut i: usize = 0;
    while i < env.len()
        invariant
            i <= env@.len(),
            env_value(env@, name@) == env_value(env@.skip(i as int), name@),
        decreases env@.len() - i,
    {
        proof {
            assert(env@.skip(i as int)[0] == env@[i as int]);
            assert(env@.skip(i as int).skip(1) =~= env@.skip(i + 1));
        }
        if same_text(env[i].0.as_str(), name) {
            return Some(env[i].1.clone());
        }
        i = i + 1;
    }
    None
}

/// Reads the variable specs against the local environment; see [`binding`].
pub fn exec_env_bindings(specs: &[String], env: &Vec<(String, String)>) -> (r: Vec<EnvBinding>)
    ensures
        binding_model(r@) == bindings(texts(specs@), env@),
{
    let mut out: Vec<EnvBinding> = Vec::new();
    let mut i: usize = 0;
    while i < specs.len()
        invariant
            i <= specs@.len(),
            binding_model(out@) == bindings(texts(specs@.take(i as int)), env@),
        decreases specs@.len() - i,
    {
        proof {
            assert(texts(specs@.take(i + 1)).drop_last() =~= texts(specs@.take(i as int)));
            assert(texts(specs@.take(i + 1)).last() == specs@[i as int]@);
        }
        let ghost before = out@;
        let spec = chars_of(specs[i].as_str());
        match split_first(spec.as_slice(), '=') {
            Some((name, value)) => {
                out.push(EnvBinding { name: string_of(name), value: string_of(value) });
                assert(binding_model(out@) =~= binding_model(before).push((name@, value@)));
            },
            None => {
                if let Some(v) = lookup(env, specs[i].as_str()) {
                    let ghost shown = v@;
                    out.push(EnvBinding { name: specs[i].clone(), value: v });
                    assert(binding_model(out@) =~= binding_model(before).push((spec@, shown)));
                }
            },
        }
        i = i + 1;
    }
    assert(specs@.take(specs@.len() as int) =~= specs@);
    out
}

// ---------------------------------------------------------------------
// Quoting
// ---------------------------------------------------------------------

/// A character that needs no quoting in a Unix shell.
pub open spec fn is_plain(c: char) -> bool {
    ||| crate::paths::is_letter(c)
    ||| crate::number::is_digit(c)
    ||| seq!['-', '_', '=', '/', ',', '.', '+'].contains(c)
}

/// The text between single quotes: a quote or `!` leaves the quotes.
pub open spec fn quoted_body(s: Seq<char>) -> Seq<char>
    decreases s.len(),
{
    if s.len() == 0 {
        Seq::empty()
    } else if s[0] == '\'' || s[0] == '!' {
        seq!['\'', '\\', s[0], '\''] + quoted_body(s.skip(1))
    } else {
        seq![s[0]] + quoted_body(s.skip(1))
    }
}

/// `s` as one word of a Unix shell.
pub open spec fn unix_word(s: Seq<char>) -> Seq<char> {
    if s.len() > 0 && forall|i: int| 0 <= i < s.len() ==> is_plain(#[trigger] s[i]) {
        s
    } else {
        seq!['\''] + quoted_body(s) + seq!['\'']
    }
}

/// `n` backslashes.
pub open spec fn backslashes(n: nat) -> Seq<char> {
    Seq::new(n, |i: int| '\\')
}

/// The text between double quotes, after `pending` backslashes: before a
/// quote the backslashes are doubled and one more is added, at the end they
/// are doubled.
pub open spec fn windows_body(s: Seq<char>, pending: nat) -> Seq<char>
    decreases s.len(),
{
    if s.len() == 0 {
        backslashes(2 * pending)
    } else if s[0] == '\\' {
        windows_body(s.skip(1), pending + 1)
    } else if s[0] == '"' {
        backslashes(2 * pending + 1) + seq!['"'] + windows_body(s.skip(1), 0)
    } else {
        backslashes(pending) + seq![s[0]] + windows_body(s.skip(1), 0)
    }
}

/// `s` as one argument on Windows.
pub open spec fn windows_word(s: Seq<char>) -> Seq<char> {
    if s.len() > 0 && !s.contains('"') && !s.contains('\t') && !s.contains('\n') && !s.contains(' ') {
        s
    } else {
        seq!['"'] + windows_body(s, 0) + seq!['"']
    }
}

/// The two forms that a quoted word can have.
pub open spec fn is_word_of(word: Seq<char>, s: Seq<char>) -> bool {
    word == unix_word(s) || word == windows_word(s)
}

/// `shell_escape::escape`: the text as one word of a shell. It is the Unix
/// form on Unix or where `MSYSTEM` is set in the environment, else the
/// Windows form; which of the two is not claimed.
#[verifier::external_body]
fn shell_word(s: &str) -> (r: String)
    ensures
        is_word_of(r@, s@),
{
    shell_escape::escape(s.into()).into_owned()
}

// ---------------------------------------------------------------------
// The payload
// ---------------------------------------------------------------------

/// One assignment in the syntax of the shell.
pub open spec fn assignment(shell: Seq<char>, name: Seq<char>, word: Seq<char>) -> Seq<char> {
    if shell == "cmd"@ {
        "set \""@ + name + "="@ + word + "\""@
    } else {
        "export "@ + name + "="@ + word
    }
}

/// The assignments of all variables.
pub open spec fn assignments(
    shell: Seq<char>,
    names: Seq<Seq<char>>,
    words: Seq<Seq<char>>,
) -> Seq<Seq<char>> {
    Seq::new(names.len(), |i: int| assignment(shell, names[i], words[i]))
}

/// `s` with a backslash before each double quote.
pub open spec fn escape_quotes(s: Seq<char>) -> Seq<char>
    decreases s.len(),
{
    if s.len() == 0 {
        Seq::empty()
    } else if s.last() == '"' {
        escape_quotes(s.drop_last()) + seq!['\\', '"']
    } else {
        escape_quotes(s.drop_last()).push(s.last())
    }
}

/// The command line for the remote side: the assignments, then the command.
/// For `cmd.exe` references to the variables are rewritten, and a command
/// that follows assignments runs in a nested `cmd /c` so that it sees them.
pub open spec fn payload(
    shell: Seq<char>,
    command: Seq<Seq<char>>,
    names: Seq<Seq<char>>,
    words: Seq<Seq<char>>,
) -> Seq<char> {
    let prefix = env_prefix(assignments(shell, names, words), shell);
    let line = joined(command, " "@);
    if shell == "cmd"@ {
        let line = rewritten(line, names);
        if names.len() > 0 {
            prefix + "cmd /c \""@ + escape_quotes(line) + "\""@
        } else {
            prefix + line
        }
    } else {
        prefix + line
    }
}

fn quote_escaped(s: &str) -> (r: String)
    ensures
        r@ == escape_quotes(s@),
{
    let all = chars_of(s);
    let mut out = String::new();
    let mut i: usize = 0;
    while i < all.len()
        invariant
            i <= all@.len(),
            out@ == escape_quotes(all@.take(i as int)),
        decreases all@.len() - i,
    {
        proof {
            assert(all@.take(i + 1).drop_last() =~= all@.take(i as int));
        }
        let ghost before = out@;
        if all[i] == '"' {
            out.push('\\');
            out.push('"');
            assert(out@ =~= before + seq!['\\', '"']);
        } else {
            out.push(all[i]);
        }
        i = i + 1;
    }
    assert(all@.take(all@.len() as int) =~= all@);
    out
}

fn assignment_text(shell: &str, name: &str, word: &str) -> (r: String)
    ensures
        r@ == assignment(shell@, name@, word@),
{
    if same_text(shell, "cmd") {
        let mut out = concatenate("set \"", name);
        out.append("=");
        out.append(word);
        out.append("\"");
        out
    } else {
        let mut out = concatenate("export ", name);
        out.append("=");
        out.append(word);
        out
    }
}

/// Assembles the command line for the remote side from variables whose
/// values are quoted already; see [`payload`].
pub fn exec_payload(
    shell: &str,
    command: &[String],
    names: &[String],
    words: &[String],
) -> (r: String)
    requires
        names@.len() == words@.len(),
    ensures
        r@ == payload(shell@, texts(command@), texts(names@), texts(words@)),
{
    let mut parts: Vec<String> = Vec::new();
    let mut i: usize = 0;
    while i < names.len()
        invariant
            i <= names@.len(),
            names@.len() == words@.len(),
            texts(parts@) == assignments(shell@, texts(names@), texts(words@)).take(i as int),
        decreases names@.len() - i,
    {
        let ghost before = parts@;
        parts.push(assignment_text(shell, names[i].as_str(), words[i].as_str()));
        proof {
            let all = assignments(shell@, texts(names@), texts(words@));
            assert(texts(parts@) =~= texts(before).push(all[i as int]));
            assert(all.take(i as int).push(all[i as int]) =~= all.take(i + 1));
        }
        i = i + 1;
    }
    proof {
        let all = assignments(shell@, texts(names@), texts(words@));
        assert(all.take(all.len() as int) =~= all);
        assert(parts@.len() == texts(parts@).len());
    }
    let prefix = build_exec_env_prefix(parts.as_slice(), shell);
    let line = join(command, " ");
    if same_text(shell, "cmd") {
        let line = rewrite_dollar_refs_for_cmd(line.as_str(), names);
        if names.len() > 0 {
            let escaped = quote_escaped(line.as_str());
            let mut out = concatenate(prefix.as_str(), "cmd /c \"");
            out.append(escaped.as_str());
            out.append("\"");
            out
        } else {
            concatenate(prefix.as_str(), line.as_str())
        }
    } else {
        concatenate(prefix.as_str(), line.as_str())
    }
}

/// Whether `words` are quoted forms of the values of `b`.
pub open spec fn words_of(words: Seq<Seq<char>>, b: Seq<(Seq<char>, Seq<char>)>) -> bool {
    &&& words.len() == b.len()
    &&& forall|i: int| 0 <= i < b.len() ==> is_word_of(#[trigger] words[i], b[i].1)
}

/// The command line for the remote side: reads the variable specs against
/// the local environment, quotes their values and assembles the whole.
pub fn exec_command_line(
    shell: &str,
    command: &[String],
    specs: &[String],
    env: &Vec<(String, String)>,
) -> (r: String)
    ensures
        exists|words: Seq<Seq<char>>|
            #[trigger] words_of(words, bindings(texts(specs@), env@)) && r@ == payload(
                shell@,
                texts(command@),
                bindings(texts(specs@), env@).map_values(|e: (Seq<char>, Seq<char>)| e.0),
                words,
            ),
{
    let bound = exec_env_bindings(specs, env);
    let ghost b = bindings(texts(specs@), env@);
    assert(bound@.len() == b.len()) by {
        assert(binding_model(bound@).len() == bound@.len());
    }
    let mut names: Vec<String> = Vec::new();
    let mut words: Vec<String> = Vec::new();
    let mut i: usize = 0;
    while i < bound.len()
        invariant
            i <= bound@.len(),
            bound@.len() == b.len(),
            binding_model(bound@) == b,
            names@.len() == i,
            words@.len() == i,
            forall|j: int| 0 <= j < i ==> (#[trigger] names@[j])@ == b[j].0,
            forall|j: int| 0 <= j < i ==> is_word_of((#[trigger] words@[j])@, b[j].1),
        decreases bound@.len() - i,
    {
        assert(binding_model(bound@)[i as int] == (bound@[i as int].name@, bound@[i as int].value@));
        names.push(bound[i].name.clone());
        words.push(shell_word(bound[i].value.as_str()));
        i = i + 1;
    }
    let r = exec_payload(shell, command, names.as_slice(), words.as_slice());
    proof {
        assert(texts(names@) =~= b.map_values(|e: (Seq<char>, Seq<char>)| e.0));
        assert(words_of(texts(words@), b));
    }
    r
}

// ---------------------------------------------------------------------
// Laws
// ---------------------------------------------------------------------

proof fn rewritten_without_references(s: Seq<char>, names: Seq<Seq<char>>, i: int)
    requires
        0 <= i <= s.len(),
        forall|j: int| i <= j < s.len() ==> !is_reference(s, names, j),
    ensures
        rewritten_from(s, names, i) == s.skip(i),
    decreases s.len() - i,
{
    if i < s.len() {
        assert(!is_reference(s, names, i));
        rewritten_without_references(s, names, i + 1);
        assert(seq![s[i]] + s.skip(i + 1) =~= s.skip(i));
    } else {
        assert(s.skip(i) =~= Seq::<char>::empty());
    }
}

/// A command without a reference to a declared variable comes out of the
/// rewriting unchanged; so does any command where none is declared.
pub proof fn rewriting_keeps_other_text(command: Seq<char>, names: Seq<Seq<char>>)
    requires
        forall|j: int| 0 <= j < command.len() ==> !is_reference(command, names, j),
    ensures
        rewritten(command, names) == command,
{
    rewritten_without_references(command, names, 0);
    assert(command.skip(0) =~= command);
}

/// Where no variable is declared nothing is a reference.
pub proof fn nothing_refers_to_no_names(command: Seq<char>)
    ensures
        rewritten(command, Seq::empty()) == command,
{
    rewriting_keeps_other_text(command, Seq::empty());
}

proof fn name_end_at_end(s: Seq<char>, i: int)
    requires
        0 <= i <= s.len(),
        forall|j: int| i <= j < s.len() ==> name_cont(#[trigger] s[j]),
    ensures
        name_end(s, i) == s.len(),
    decreases s.len() - i,
{
    if i < s.len() {
        name_end_at_end(s, i + 1);
    }
}

proof fn rewriting_skips_plain_front(
    front: Seq<char>,
    tail: Seq<char>,
    names: Seq<Seq<char>>,
    i: int,
)
    requires
        0 <= i <= front.len(),
        !front.contains('$'),
    ensures
        rewritten_from(front + tail, names, i) == front.skip(i) + rewritten_from(
            front + tail,
            names,
            front.len() as int,
        ),
    decreases front.len() - i,
{
    let s = front + tail;
    if i < front.len() {
        assert(s[i] == front[i]);
        assert(front.contains(front[i]));
        assert(!is_reference(s, names, i));
        rewriting_skips_plain_front(front, tail, names, i + 1);
        assert(seq![s[i]] + (front.skip(i + 1) + rewritten_from(s, names, front.len() as int))
            =~= front.skip(i) + rewritten_from(s, names, front.len() as int));
    } else {
        assert(front.skip(i) + rewritten_from(s, names, i) =~= rewritten_from(s, names, i));
    }
}

/// A reference to a declared variable becomes one that `cmd.exe` expands, and
/// the text before it stays as it is, whatever characters it is made of.
pub proof fn references_are_rewritten(front: Seq<char>, name: Seq<char>, names: Seq<Seq<char>>)
    requires
        !front.contains('$'),
        names.contains(name),
        name.len() > 0,
        name_start(name[0]),
        forall|j: int| 0 <= j < name.len() ==> name_cont(#[trigger] name[j]),
    ensures
        rewritten(front + (seq!['$'] + name), names) == front + (seq!['%'] + name + seq!['%']),
{
    let tail = seq!['$'] + name;
    let s = front + tail;
    let n = front.len() as int;
    rewriting_skips_plain_front(front, tail, names, 0);
    assert(front.skip(0) =~= front);
    assert forall|j: int| n + 1 <= j < s.len() implies name_cont(#[trigger] s[j]) by {
        assert(s[j] == name[j - n - 1]);
    }
    assert(s[n + 1] == name[0]);
    name_end_at_end(s, n + 1);
    assert(s.subrange(n + 1, s.len() as int) =~= name);
    assert(is_reference(s, names, n));
    assert(rewritten_from(s, names, s.len() as int) == Seq::<char>::empty());
    assert(seq!['%'] + name + seq!['%'] + Seq::<char>::empty() =~= seq!['%'] + name + seq!['%']);
}

/// Without variables the remote side gets the words of the command, joined
/// with blanks, in either shell.
pub proof fn payload_without_variables(shell: Seq<char>, command: Seq<Seq<char>>)
    ensures
        payload(shell, command, Seq::empty(), Seq::empty()) == joined(command, " "@),
{
    let none = Seq::<Seq<char>>::empty();
    assert(assignments(shell, none, none) =~= none);
    assert(Seq::<char>::empty() + joined(command, " "@) =~= joined(command, " "@));
    nothing_refers_to_no_names(joined(command, " "@));
}

/// In a shell other than `cmd.exe` the command itself is never altered: it
/// stands at the end of the payload.
pub proof fn sh_command_is_verbatim(
    shell: Seq<char>,
    command: Seq<Seq<char>>,
    names: Seq<Seq<char>>,
    words: Seq<Seq<char>>,
)
    requires
        shell != "cmd"@,
    ensures
        crate::text::finishes_with(payload(shell, command, names, words), joined(command, " "@)),
{
    let prefix = env_prefix(assignments(shell, names, words), shell);
    let line = joined(command, " "@);
    assert((prefix + line).skip(prefix.len() as int) =~= line);
}

/// `NAME=value` gives the remote command that value, whatever the local
/// environment holds; a bare name gives it what the local environment holds
/// under that name, first of several; one that is not there gives it nothing.
pub proof fn variables_are_bound(
    name: Seq<char>,
    value: Seq<char>,
    env: Seq<(String, String)>,
    i: int,
)
    requires
        !name.contains('='),
    ensures
        binding(name + seq!['='] + value, env) == Some((name, value)),
        0 <= i < env.len() && env[i].0@ == name && (forall|j: int|
            0 <= j < i ==> (#[trigger] env[j]).0@ != name) ==> binding(name, env) == Some(
            (name, env[i].1@),
        ),
        (forall|j: int| 0 <= j < env.len() ==> (#[trigger] env[j]).0@ != name) ==> binding(
            name,
            env,
        ) is None,
{
    crate::text::cut_first_rejoins(name, '=', value);
    crate::text::cut_needs_separator(name, '=');
    if 0 <= i < env.len() && env[i].0@ == name && (forall|j: int|
        0 <= j < i ==> (#[trigger] env[j]).0@ != name) {
        env_value_at(env, name, i);
    }
    if forall|j: int| 0 <= j < env.len() ==> (#[trigger] env[j]).0@ != name {
        env_value_absent(env, name);
    }
}

proof fn env_value_at(env: Seq<(String, String)>, name: Seq<char>, i: int)
    requires
        0 <= i < env.len(),
        env[i].0@ == name,
        forall|j: int| 0 <= j < i ==> (#[trigger] env[j]).0@ != name,
    ensures
        env_value(env, name) == Some(env[i].1@),
    decreases i,
{
    if i > 0 {
        let rest = env.skip(1);
        assert(env[0].0@ != name);
        assert forall|j: int| 0 <= j < i - 1 implies (#[trigger] rest[j]).0@ != name by {
            assert(rest[j] == env[j + 1]);
        }
        assert(rest[i - 1] == env[i]);
        env_value_at(rest, name, i - 1);
    }
}

proof fn env_value_absent(env: Seq<(String, String)>, name: Seq<char>)
    requires
        forall|j: int| 0 <= j < env.len() ==> (#[trigger] env[j]).0@ != name,
    ensures
        env_value(env, name) is None,
    decreases env.len(),
{
    if env.len() > 0 {
        let rest = env.skip(1);
        assert(env[0].0@ != name);
        assert forall|j: int| 0 <= j < rest.len() implies (#[trigger] rest[j]).0@ != name by {
            assert(rest[j] == env[j + 1]);
        }
        env_value_absent(rest, name);
    }
}

/// Variables are bound in the order in which they are given; those that are not
/// there are left out.
pub proof fn variables_keep_their_order(
    specs: Seq<Seq<char>>,
    spec: Seq<char>,
    env: Seq<(String, String)>,
)
    ensures
        bindings(Seq::empty(), env) == Seq::<(Seq<char>, Seq<char>)>::empty(),
        bindings(specs.push(spec), env) == match binding(spec, env) {
            Some(b) => bindings(specs, env).push(b),
            None => bindings(specs, env),
        },
{
    assert(specs.push(spec).drop_last() =~= specs);
}

/// In a Unix shell each variable is exported, with its value quoted as given,
/// before the command: one more variable at the front adds one more export at
/// the front.
pub proof fn sh_variables_are_exported(
    shell: Seq<char>,
    command: Seq<Seq<char>>,
    name: Seq<char>,
    word: Seq<char>,
    names: Seq<Seq<char>>,
    words: Seq<Seq<char>>,
)
    requires
        shell != "cmd"@,
        names.len() == words.len(),
    ensures
        payload(shell, command, seq![name] + names, seq![word] + words) == "export "@ + name
            + "="@ + word + "; "@ + payload(shell, command, names, words),
{
    assignments_in_front(shell, name, word, names, words, "; "@);
    let line = joined(command, " "@);
    let parts = assignments(shell, names, words);
    let more = assignments(shell, seq![name] + names, seq![word] + words);
    assert(more.len() > 0);
    if names.len() == 0 {
        assert(parts =~= Seq::<Seq<char>>::empty());
        assert(Seq::<char>::empty() + line =~= line);
        assert(payload(shell, command, seq![name] + names, seq![word] + words) =~= "export "@ + name
            + "="@ + word + "; "@ + line);
    } else {
        assert(parts.len() > 0);
        assert(payload(shell, command, seq![name] + names, seq![word] + words) =~= "export "@ + name
            + "="@ + word + "; "@ + payload(shell, command, names, words));
    }
}

proof fn assignments_in_front(
    shell: Seq<char>,
    name: Seq<char>,
    word: Seq<char>,
    names: Seq<Seq<char>>,
    words: Seq<Seq<char>>,
    sep: Seq<char>,
)
    requires
        names.len() == words.len(),
    ensures
        ({
            let first = assignment(shell, name, word);
            let parts = assignments(shell, names, words);
            let more = assignments(shell, seq![name] + names, seq![word] + words);
            &&& more == seq![first] + parts
            &&& joined(more, sep) == if names.len() == 0 {
                first
            } else {
                first + sep + joined(parts, sep)
            }
        }),
{
    let first = assignment(shell, name, word);
    let parts = assignments(shell, names, words);
    let more = assignments(shell, seq![name] + names, seq![word] + words);
    assert forall|i: int| 0 <= i < more.len() implies more[i] == (seq![first] + parts)[i] by {
        if i > 0 {
            assert((seq![name] + names)[i] == names[i - 1]);
            assert((seq![word] + words)[i] == words[i - 1]);
        }
    }
    assert(more =~= seq![first] + parts);
    if names.len() == 0 {
        assert(more =~= seq![first]);
    } else {
        crate::text::joined_unfolds(more, sep);
        assert(more.skip(1) =~= parts);
    }
}

/// A backslash comes before each double quote, and nothing else changes.
pub proof fn quotes_are_escaped(front: Seq<char>, c: char)
    ensures
        escape_quotes(Seq::empty()) == Seq::<char>::empty(),
        escape_quotes(front.push('"')) == escape_quotes(front) + seq!['\\', '"'],
        c != '"' ==> escape_quotes(front.push(c)) == escape_quotes(front).push(c),
{
    assert(front.push('"').drop_last() =~= front);
    assert(front.push(c).drop_last() =~= front);
}

/// A name is made of ASCII letters, digits and underscores, and does not begin
/// with a digit.
pub proof fn names_are_identifiers(c: char)
    ensures
        name_start(c) <==> 'a' <= c <= 'z' || 'A' <= c <= 'Z' || c == '_',
        name_cont(c) <==> 'a' <= c <= 'z' || 'A' <= c <= 'Z' || c == '_' || '0' <= c <= '9',
{
}

proof fn name_ends_before(s: Seq<char>, i: int, end: int)
    requires
        0 <= i <= end < s.len(),
        forall|j: int| i <= j < end ==> name_cont(#[trigger] s[j]),
        !name_cont(s[end]),
    ensures
        name_end(s, i) == end,
    decreases end - i,
{
    if i < end {
        name_ends_before(s, i + 1, end);
    }
}

proof fn name_end_shifts(s: Seq<char>, k: int, i: int)
    requires
        0 <= k <= i <= s.len(),
    ensures
        name_end(s, i) == k + name_end(s.skip(k), i - k),
    decreases s.len() - i,
{
    if i < s.len() {
        assert(s.skip(k)[i - k] == s[i]);
        if name_cont(s[i]) {
            name_end_shifts(s, k, i + 1);
        }
    }
}

proof fn rewriting_shifts(s: Seq<char>, names: Seq<Seq<char>>, k: int, i: int)
    requires
        0 <= k <= i <= s.len(),
    ensures
        rewritten_from(s, names, i) == rewritten_from(s.skip(k), names, i - k),
    decreases s.len() - i,
{
    let t = s.skip(k);
    if i < s.len() {
        assert(t[i - k] == s[i]);
        if i + 1 < s.len() {
            assert(t[i - k + 1] == s[i + 1]);
            name_end_shifts(s, k, i + 1);
            name_end_bounds(s, i + 1);
            let end = name_end(s, i + 1);
            assert(s.subrange(i + 1, end) =~= t.subrange(i - k + 1, end - k));
        }
        if is_reference(s, names, i) {
            rewriting_shifts(s, names, k, name_end(s, i + 1));
        } else {
            rewriting_shifts(s, names, k, i + 1);
        }
    }
}

/// References are rewritten one by one, wherever they stand: text without a
/// dollar sign before one stays; `$NAME` becomes `%NAME%` just if the whole
/// name, up to the first character that cannot belong to it, is declared; and
/// what follows is rewritten in turn.
pub proof fn references_are_rewritten_in_place(
    front: Seq<char>,
    name: Seq<char>,
    c: char,
    rest: Seq<char>,
    names: Seq<Seq<char>>,
)
    requires
        !front.contains('$'),
        name.len() > 0,
        name_start(name[0]),
        forall|j: int| 0 <= j < name.len() ==> name_cont(#[trigger] name[j]),
        !name_cont(c),
    ensures
        names.contains(name) ==> rewritten(
            front + (seq!['$'] + name + (seq![c] + rest)),
            names,
        ) == front + (seq!['%'] + name + seq!['%'] + rewritten(seq![c] + rest, names)),
        !names.contains(name) ==> rewritten(
            front + (seq!['$'] + name + (seq![c] + rest)),
            names,
        ) == front + (seq!['$'] + rewritten(name + (seq![c] + rest), names)),
{
    let tail = seq!['$'] + name + (seq![c] + rest);
    let s = front + tail;
    let n = front.len() as int;
    let end = n + 1 + name.len();
    rewriting_skips_plain_front(front, tail, names, 0);
    assert(front.skip(0) =~= front);
    assert forall|j: int| n + 1 <= j < end implies name_cont(#[trigger] s[j]) by {
        assert(s[j] == name[j - n - 1]);
    }
    assert(s[end] == c);
    name_ends_before(s, n + 1, end);
    assert(s.subrange(n + 1, end) =~= name);
    assert(s[n] == '$' && s[n + 1] == name[0]);
    rewriting_shifts(s, names, end, end);
    assert(s.skip(end) =~= seq![c] + rest);
    rewriting_shifts(s, names, n + 1, n + 1);
    assert(s.skip(n + 1) =~= name + (seq![c] + rest));
}

/// For `cmd.exe` a command that follows assignments runs in a nested `cmd /c`,
/// however many there are; without any it stands alone.
pub proof fn cmd_commands_see_their_variables(
    command: Seq<Seq<char>>,
    names: Seq<Seq<char>>,
    words: Seq<Seq<char>>,
)
    requires
        names.len() == words.len(),
        names.len() > 0,
    ensures
        payload("cmd"@, command, names, words) == joined(
            Seq::new(
                names.len(),
                |i: int| "set \""@ + names[i] + "="@ + words[i] + "\""@,
            ),
            " & "@,
        ) + " & "@ + "cmd /c \""@ + escape_quotes(rewritten(joined(command, " "@), names)) + "\""@,
{
    let parts = Seq::new(names.len(), |i: int| "set \""@ + names[i] + "="@ + words[i] + "\""@);
    assert(assignments("cmd"@, names, words) =~= parts);
}

/// Each assignment stands before the command with a separator behind it: ` & `
/// for `cmd.exe`, `; ` for any other shell; without assignments nothing does.
pub proof fn assignments_are_separated(
    part: Seq<char>,
    parts: Seq<Seq<char>>,
    shell: Seq<char>,
)
    requires
        shell != "cmd"@,
    ensures
        env_prefix(Seq::empty(), shell) == Seq::<char>::empty(),
        env_prefix(Seq::empty(), "cmd"@) == Seq::<char>::empty(),
        env_prefix(seq![part] + parts, shell) == part + "; "@ + env_prefix(parts, shell),
        env_prefix(seq![part] + parts, "cmd"@) == part + " & "@ + env_prefix(parts, "cmd"@),
{
    let all = seq![part] + parts;
    if parts.len() == 0 {
        assert(all =~= seq![part]);
        assert(env_prefix(all, shell) =~= part + "; "@ + env_prefix(parts, shell));
        assert(env_prefix(all, "cmd"@) =~= part + " & "@ + env_prefix(parts, "cmd"@));
    } else {
        assert(all.skip(1) =~= parts);
        crate::text::joined_unfolds(all, "; "@);
        crate::text::joined_unfolds(all, " & "@);
        assert(env_prefix(all, shell) =~= part + "; "@ + env_prefix(parts, shell));
        assert(env_prefix(all, "cmd"@) =~= part + " & "@ + env_prefix(parts, "cmd"@));
    }
}

/// A dollar sign that no name follows stays as it is, wherever it stands.
pub proof fn lone_dollars_stay(
    front: Seq<char>,
    c: char,
    rest: Seq<char>,
    names: Seq<Seq<char>>,
)
    requires
        !front.contains('$'),
        !('a' <= c <= 'z') && !('A' <= c <= 'Z') && c != '_',
    ensures
        rewritten(front + (seq!['$'] + (seq![c] + rest)), names) == front + (seq!['$'] + rewritten(
            seq![c] + rest,
            names,
        )),
        rewritten(front + seq!['$'], names) == front + seq!['$'],
{
    let tail = seq!['$'] + (seq![c] + rest);
    let s = front + tail;
    let n = front.len() as int;
    rewriting_skips_plain_front(front, tail, names, 0);
    assert(front.skip(0) =~= front);
    assert(s[n] == '$' && s[n + 1] == c);
    assert(!is_reference(s, names, n));
    rewriting_shifts(s, names, n + 1, n + 1);
    assert(s.skip(n + 1) =~= seq![c] + rest);
    let last = seq!['$'];
    let t = front + last;
    rewriting_skips_plain_front(front, last, names, 0);
    assert(t[n] == '$' && t.len() == n + 1);
    assert(!is_reference(t, names, n));
    assert(rewritten_from(t, names, n + 1) == Seq::<char>::empty());
    assert(rewritten_from(t, names, n) =~= seq!['$']);
}

} // verus!
