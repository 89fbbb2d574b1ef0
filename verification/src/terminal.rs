//! The diagnostic terminal: which commands may run, and what a run answers.
use crate::http::{path_element_or_empty, path_get_or_empty, HttpMethod, Permission};
use crate::text::{
    after_first_word_chars, cat, cat3, chars_of, contains, contains_chars, decimal, decimal_string, eq_chars,
    find_from, find_from_bounds, first_segment, first_word, first_word_chars, second_word, split_once_chars,
    trim, trim_chars,
};
use vstd::prelude::*;

verus! {

/// Response from a terminal command execution.
pub struct TerminalResponse {
    pub stdout: String,
    pub stderr: String,
    pub exit_code: Option<i32>,
    pub success: bool,
}

/// Seconds a command may run when the request gives no timeout.
pub fn default_timeout() -> (r: u64)
    ensures
        r == 30,
{
    30
}

/// The diagnostic commands that may run.
pub open spec fn allowed_commands() -> Seq<Seq<char>> {
    seq![
        "ls"@, "cat"@, "head"@, "tail"@, "grep"@, "find"@, "df"@, "du"@, "free"@,
        "ps"@, "top"@, "uptime"@, "whoami"@, "hostname"@, "uname"@, "date"@,
        "dig"@, "nslookup"@, "ping"@, "traceroute"@, "netstat"@, "ss"@,
        "curl"@, "wget"@, "openssl"@, "certbot"@,
        "systemctl status"@, "journalctl"@,
        "docker ps"@, "docker logs"@, "docker inspect"@,
    ]
}

/// The list of diagnostic commands that may run.
pub fn allowed_command_list() -> (r: Vec<&'static str>)
    ensures
        r@.map_values(|s: &'static str| s@) == allowed_commands(),
{
    let r = vec![
        "ls", "cat", "head", "tail", "grep", "find", "df", "du", "free",
        "ps", "top", "uptime", "whoami", "hostname", "uname", "date",
        "dig", "nslookup", "ping", "traceroute", "netstat", "ss",
        "curl", "wget", "openssl", "certbot",
        "systemctl status", "journalctl",
        "docker ps", "docker logs", "docker inspect",
    ];
    assert(r@.map_values(|s: &'static str| s@) =~= allowed_commands());
    r
}

/// A command matches an allowed entry when its first word is the entry's first
/// word and, for an entry of two words, its second word is the entry's second word.
pub open spec fn matches_entry(cmd: Seq<char>, entry: Seq<char>) -> bool {
    &&& first_word(cmd) == first_word(entry)
    &&& second_word(entry).len() > 0 ==> second_word(cmd) == second_word(entry)
}

/// A command is one of the allowed diagnostic commands.
pub open spec fn allowed_command(cmd: Seq<char>) -> bool {
    exists|i: int| 0 <= i < allowed_commands().len() && matches_entry(cmd, #[trigger] allowed_commands()[i])
}

/// The command text chains, redirects or substitutes: it holds `&&`, `||`, `;`,
/// `>`, `<`, a backtick or `$(`.
pub open spec fn has_blocked_operator(cmd: Seq<char>) -> bool {
    contains(cmd, "&&"@) || contains(cmd, "||"@) || contains(cmd, seq![';']) || contains(cmd, seq!['>'])
        || contains(cmd, seq!['<']) || contains(cmd, seq!['`']) || contains(cmd, "$("@)
}

/// Every stage of a pipeline, the parts between `|`, is an allowed command.
pub open spec fn stages_allowed(s: Seq<char>) -> bool
    decreases s.len(),
{
    match find_from(s, seq!['|'], 0) {
        None => allowed_command(s),
        Some(i) => {
            proof {
                find_from_bounds(s, seq!['|'], 0);
            }
            allowed_command(s.take(i)) && stages_allowed(s.skip(i + 1))
        },
    }
}

/// Which commands may run: a trimmed command without chaining, redirection or
/// substitution, each of whose piped stages is an allowed diagnostic command.
pub open spec fn safe_command(command: Seq<char>) -> bool {
    let cmd = trim(command);
    !has_blocked_operator(cmd) && stages_allowed(cmd)
}

fn matches_entry_chars(cmd: &Vec<char>, entry: &Vec<char>) -> (r: bool)
    ensures
        r == matches_entry(cmd@, entry@),
{
    if !eq_chars(&first_word_chars(cmd), &first_word_chars(entry)) {
        return false;
    }
    let second = first_word_chars(&after_first_word_chars(entry));
    second.len() == 0 || eq_chars(&first_word_chars(&after_first_word_chars(cmd)), &second)
}

fn is_allowed_command(cmd: &Vec<char>) -> (r: bool)
    ensures
        r == allowed_command(cmd@),
{
    let allowed = allowed_command_list();
    let mut i: usize = 0;
    while i < allowed.len()
        invariant
            i <= allowed.len(),
            allowed@.map_values(|s: &'static str| s@) == allowed_commands(),
            forall|j: int| 0 <= j < i ==> !matches_entry(cmd@, #[trigger] allowed_commands()[j]),
        decreases allowed.len() - i,
    {
        assert(allowed_commands()[i as int] == allowed@[i as int]@);
        if matches_entry_chars(cmd, &chars_of(allowed[i])) {
            return true;
        }
        i += 1;
    }
    false
}

/// Checks whether a command is one of the allowed diagnostic commands, or a
/// pipeline of them.
pub fn is_safe_command(command: &str) -> (r: bool)
    ensures
        r == safe_command(command@),
{
    let cmd = trim_chars(&chars_of(command));
    let and = chars_of("&&");
    let or = chars_of("||");
    let subst = chars_of("$(");
    let semi = [';'];
    let pipe = ['|'];
    let gt = ['>'];
    let lt = ['<'];
    let tick = ['`'];
    assert(semi@ =~= seq![';']);
    assert(pipe@ =~= seq!['|']);
    assert(gt@ =~= seq!['>']);
    assert(lt@ =~= seq!['<']);
    assert(tick@ =~= seq!['`']);
    if contains_chars(&cmd, &and) || contains_chars(&cmd, &or) || contains_chars(&cmd, &semi)
        || contains_chars(&cmd, &gt) || contains_chars(&cmd, &lt) || contains_chars(&cmd, &tick) || contains_chars(&cmd, &subst)
    {
        return false;
    }
    let mut rest = cmd;
    loop
        invariant
            pipe@ == seq!['|'],
            stages_allowed(rest@) == stages_allowed(trim(command@)),
            !has_blocked_operator(trim(command@)),
        decreases rest.len(),
    {
        match split_once_chars(&rest, &pipe) {
            None => {
                return is_allowed_command(&rest);
            },
            Some((stage, next)) => {
                proof {
                    find_from_bounds(rest@, seq!['|'], 0);
                }
                if !is_allowed_command(&stage) {
                    return false;
                }
                rest = next;
            },
        }
    }
}

/// What a request to the terminal endpoint asks for.
#[derive(PartialEq, Eq, Structural, Clone, Copy, Debug)]
pub enum TerminalRoute {
    Exec,
    Info,
    NotFound,
}

/// The route of a request by its second path element and its method.
pub open spec fn terminal_route(path: Seq<String>, method: HttpMethod) -> TerminalRoute {
    let first = path_element_or_empty(path, 1);
    if method == HttpMethod::Post && first == "exec"@ {
        TerminalRoute::Exec
    } else if method == HttpMethod::Get && (first == "info"@ || first.len() == 0) {
        TerminalRoute::Info
    } else {
        TerminalRoute::NotFound
    }
}

impl TerminalRoute {
    /// Routes a request to the terminal endpoint.
    pub fn route(path: &Vec<String>, method: HttpMethod) -> (r: TerminalRoute)
        ensures
            r == terminal_route(path@, method),
    {
        let first = path_get_or_empty(path, 1);
        let f = chars_of(first.as_str());
        if method == HttpMethod::Post && eq_chars(&f, &chars_of("exec")) {
            TerminalRoute::Exec
        } else if method == HttpMethod::Get && (eq_chars(&f, &chars_of("info")) || f.len() == 0) {
            TerminalRoute::Info
        } else {
            TerminalRoute::NotFound
        }
    }

    /// Every terminal request, whatever its route, needs the restart permission.
    pub fn permission() -> (r: Permission)
        ensures
            r == Permission::Restart,
    {
        Permission::Restart
    }
}

/// The shell commands run in: bash where it exists, else sh, else the name `sh`.
pub fn choose_shell(bash_exists: bool, sh_exists: bool) -> (r: &'static str)
    ensures
        r@ == (if bash_exists {
            "/bin/bash"@
        } else if sh_exists {
            "/bin/sh"@
        } else {
            "sh"@
        }),
{
    if bash_exists {
        "/bin/bash"
    } else if sh_exists {
        "/bin/sh"
    } else {
        "sh"
    }
}

impl TerminalResponse {
    /// The answer for a command that ran to its end.
    pub fn completed(stdout: String, stderr: String, exit_code: Option<i32>, success: bool) -> (r: TerminalResponse)
        ensures
            r.stdout@ == stdout@,
            r.stderr@ == stderr@,
            r.exit_code == exit_code,
            r.success == success,
    {
        TerminalResponse { stdout, stderr, exit_code, success }
    }

    /// The answer for a command that could not be started.
    pub fn failed(error: &str) -> (r: TerminalResponse)
        ensures
            r.stdout@.len() == 0,
            r.stderr@ == "Failed to execute command: "@ + error@,
            r.exit_code is None,
            !r.success,
    {
        TerminalResponse {
            stdout: String::new(),
            stderr: cat("Failed to execute command: ", error),
            exit_code: None,
            success: false,
        }
    }

    /// The answer for a command stopped after its timeout.
    pub fn timed_out(timeout_secs: u64) -> (r: TerminalResponse)
        ensures
            r.stdout@.len() == 0,
            r.stderr@ == "Command timed out after "@ + decimal(timeout_secs as nat) + " seconds"@,
            r.exit_code is None,
            !r.success,
    {
        let secs = decimal_string(timeout_secs);
        TerminalResponse {
            stdout: String::new(),
            stderr: cat3("Command timed out after ", secs.as_str(), " seconds"),
            exit_code: None,
            success: false,
        }
    }
}

} // verus!

verus! {

/// An accepted command's first piped stage is an allowed diagnostic command.
pub proof fn lemma_safe_command_first_stage_allowed(command: Seq<char>)
    requires
        safe_command(command),
    ensures
        allowed_command(first_segment(trim(command), '|')),
{
}

/// A command that chains, redirects or substitutes is refused, whether or not it holds a pipe.
pub proof fn lemma_blocked_operators_refused(command: Seq<char>)
    requires
        has_blocked_operator(trim(command)),
    ensures
        !safe_command(command),
{
}

} // verus!
