//! The shell scripts that evaluations run inside the workspace container,
//! and how a command's outcome becomes a message.
use vstd::prelude::*;

use crate::text::{copy_str, decimal, escape_quotes, push_decimal, push_escaped_quotes, trim, trim_str};

verus! {

/// Builds the project with `make`.
pub fn build_script() -> (r: &'static str)
    ensures
        r@ == "cd /workspace && make"@,
{
    "cd /workspace && make"
}

/// Runs the `tests_run` target.
pub fn tests_script() -> (r: &'static str)
    ensures
        r@ == "cd /workspace && make tests_run"@,
{
    "cd /workspace && make tests_run"
}

/// Runs `make fclean` then `make clean`, neither of which may fail the
/// script.
pub fn clean_script() -> (r: &'static str)
    ensures
        r@ == "cd /workspace && (make fclean || true) && (make clean || true)"@,
{
    "cd /workspace && (make fclean || true) && (make clean || true)"
}

/// The text of the Valgrind script that looks for the executable itself.
pub open spec fn valgrind_script_text() -> Seq<char> {
    r#"cd /workspace && \
executables=$(find . -maxdepth 2 -type f -perm -111 \
  ! -path './.git/*' \
  ! -path './node_modules/*' \
  ! -name '*.so' \
  ! -name '*.a' | sort) && \
count=$(printf '%s\n' "$executables" | sed '/^$/d' | wc -l | tr -d ' ') && \
if [ "$count" = "0" ]; then \
  printf 'Valgrind: aucun exécutable trouvé dans /workspace. Lance Build ou indique le binaire manuellement dans le terminal.\n'; \
elif [ "$count" = "1" ]; then \
  target=$(printf '%s\n' "$executables" | sed '/^$/d' | head -n 1); \
  printf 'Valgrind target: %s\n' "$target"; \
  timeout 15s xvfb-run -a valgrind --leak-check=full --show-leak-kinds=all --track-origins=yes "$target"; \
  status=$?; \
  if [ "$status" = "124" ]; then \
    printf 'Valgrind: timeout après 15s. Le programme semble interactif ou ne se termine pas seul.\n' >&2; \
  fi; \
  exit "$status"; \
else \
  printf 'Valgrind: plusieurs exécutables possibles. Ouvre le terminal et lance valgrind sur le bon binaire:\n%s\n' "$executables"; \
fi"#@
}

/// Runs Valgrind on the only executable found near the top of
/// `/workspace`, under a virtual X server and a 15 second timeout; lists
/// the candidates when there are several, and says so when there is none.
pub fn valgrind_script() -> (r: &'static str)
    ensures
        r@ == valgrind_script_text(),
{
    r#"cd /workspace && \
executables=$(find . -maxdepth 2 -type f -perm -111 \
  ! -path './.git/*' \
  ! -path './node_modules/*' \
  ! -name '*.so' \
  ! -name '*.a' | sort) && \
count=$(printf '%s\n' "$executables" | sed '/^$/d' | wc -l | tr -d ' ') && \
if [ "$count" = "0" ]; then \
  printf 'Valgrind: aucun exécutable trouvé dans /workspace. Lance Build ou indique le binaire manuellement dans le terminal.\n'; \
elif [ "$count" = "1" ]; then \
  target=$(printf '%s\n' "$executables" | sed '/^$/d' | head -n 1); \
  printf 'Valgrind target: %s\n' "$target"; \
  timeout 15s xvfb-run -a valgrind --leak-check=full --show-leak-kinds=all --track-origins=yes "$target"; \
  status=$?; \
  if [ "$status" = "124" ]; then \
    printf 'Valgrind: timeout après 15s. Le programme semble interactif ou ne se termine pas seul.\n' >&2; \
  fi; \
  exit "$status"; \
else \
  printf 'Valgrind: plusieurs exécutables possibles. Ouvre le terminal et lance valgrind sur le bon binaire:\n%s\n' "$executables"; \
fi"#
}

/// The Valgrind script for a chosen executable, relative to `/workspace`.
pub open spec fn valgrind_target_script_text(target: Seq<char>) -> Seq<char> {
    "cd /workspace && timeout 15s xvfb-run -a valgrind --leak-check=full --show-leak-kinds=all --track-origins=yes ./"@
        + escape_quotes(target)
        + "; status=$?; if [ \"$status\" = \"124\" ]; then printf 'Valgrind: timeout après 15s. Le programme semble interactif ou ne se termine pas seul.\\n' >&2; fi; exit \"$status\""@
}

/// Runs Valgrind on a chosen executable, under a virtual X server and a
/// 15 second timeout, and explains a timeout.
pub fn valgrind_target_script(target_path: &str) -> (r: String)
    ensures
        r@ == valgrind_target_script_text(target_path@),
{
    let mut s = copy_str(
        "cd /workspace && timeout 15s xvfb-run -a valgrind --leak-check=full --show-leak-kinds=all --track-origins=yes ./",
    );
    push_escaped_quotes(&mut s, target_path);
    s.append(
        "; status=$?; if [ \"$status\" = \"124\" ]; then printf 'Valgrind: timeout après 15s. Le programme semble interactif ou ne se termine pas seul.\\n' >&2; fi; exit \"$status\"",
    );
    s
}

/// The message of a finished command: its trimmed standard output when it
/// succeeded (or a success note when that is empty), else an error with its
/// trimmed standard error when there is any.
pub open spec fn command_result(
    command_name: Seq<char>,
    success: bool,
    stdout: Seq<char>,
    stderr: Seq<char>,
) -> Result<Seq<char>, Seq<char>> {
    if success {
        if trim(stdout).len() == 0 {
            Ok(command_name + " terminé avec succès."@)
        } else {
            Ok(trim(stdout))
        }
    } else if trim(stderr).len() == 0 {
        Err(command_name + " a échoué."@)
    } else {
        Err(command_name + " a échoué: "@ + trim(stderr))
    }
}

/// A command's message is a success exactly when the command succeeded,
/// and a failure message always names the command.
pub proof fn lemma_command_result_follows_status(
    command_name: Seq<char>,
    success: bool,
    stdout: Seq<char>,
    stderr: Seq<char>,
)
    ensures
        command_result(command_name, success, stdout, stderr) is Ok <==> success,
        command_result(command_name, success, stdout, stderr) matches Err(e) ==> e.take(
            command_name.len() as int,
        ) == command_name,
{
    if !success {
        let e = command_result(command_name, success, stdout, stderr)->Err_0;
        assert(e.take(command_name.len() as int) =~= command_name);
    }
}

/// Turns the outcome of a command into the message shown to the user.
pub fn format_command_result(command_name: &str, success: bool, stdout: &str, stderr: &str) -> (r:
    Result<String, String>)
    ensures
        crate::paths::result_view(r) == command_result(command_name@, success, stdout@, stderr@),
{
    let out = trim_str(stdout);
    let err = trim_str(stderr);
    if success {
        if out.as_str().unicode_len() == 0 {
            let mut m = copy_str(command_name);
            m.append(" terminé avec succès.");
            Ok(m)
        } else {
            Ok(out)
        }
    } else if err.as_str().unicode_len() == 0 {
        let mut m = copy_str(command_name);
        m.append(" a échoué.");
        Err(m)
    } else {
        let mut m = copy_str(command_name);
        m.append(" a échoué: ");
        m.append(err.as_str());
        Err(m)
    }
}

/// The diagnostics shown to the user: the Docker version (or why it could
/// not be read), the number of environments, and what listens on the dev
/// server port (or that the port is free when nothing could be listed).
pub open spec fn diagnostics_text(
    docker: Result<Seq<char>, Seq<char>>,
    environments: nat,
    dev_port: Result<Seq<char>, Seq<char>>,
) -> Seq<char> {
    "Docker: "@ + match docker {
        Ok(version) => version,
        Err(error) => error,
    } + "\nEnvironnements: "@ + decimal(environments) + "\nDev server: "@ + match dev_port {
        Ok(listeners) => listeners,
        Err(_) => "Port dev 1420 libre."@,
    }
}

/// Assembles the diagnostics from the outcomes of `docker --version` and of
/// the listing of the dev server port.
pub fn diagnostics_report(
    docker: Result<String, String>,
    environments: usize,
    dev_port: Result<String, String>,
) -> (r: String)
    ensures
        r@ == diagnostics_text(
            crate::paths::result_view(docker),
            environments as nat,
            crate::paths::result_view(dev_port),
        ),
{
    let mut s = copy_str("Docker: ");
    match &docker {
        Ok(version) => s.append(version.as_str()),
        Err(error) => s.append(error.as_str()),
    }
    s.append("\nEnvironnements: ");
    push_decimal(&mut s, environments as u128);
    s.append("\nDev server: ");
    match &dev_port {
        Ok(listeners) => s.append(listeners.as_str()),
        Err(_) => s.append("Port dev 1420 libre."),
    }
    s
}

} // verus!
