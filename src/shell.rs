//! The block that a POSIX shell's startup file gets so that the manager's
//! directories are on `PATH`.
use vstd::prelude::*;

use crate::cleanup::first_line;
use crate::shasums::lemma_next_line;
use crate::text::{contains_str, ends_with_str, str_contains, str_ends_with, str_eq, trim_text, trimmed};

verus! {

pub const BLOCK_START: &'static str = "# >>> nvm-rs >>>";

pub const BLOCK_END: &'static str = "# <<< nvm-rs <<<";

#[derive(Clone, Copy, Debug, PartialEq, Eq, Structural)]
pub enum ShellType {
    Bash,
    Zsh,
    Fish,
}

/// The startup file that a shell reads, relative to the home directory.
#[derive(Clone, Copy, Debug, PartialEq, Eq, Structural)]
pub enum ShellRc {
    /// `.config/fish/config.fish`
    FishConfig,
    /// `.zshrc`
    Zshrc,
    /// `.bashrc`
    Bashrc,
    /// `.bash_profile`
    BashProfile,
}

pub open spec fn shell_choice(
    shell: Seq<char>,
    bashrc_exists: bool,
    bash_profile_exists: bool,
    zshrc_exists: bool,
) -> (ShellRc, ShellType) {
    if contains_str(shell, "fish"@) {
        (ShellRc::FishConfig, ShellType::Fish)
    } else if contains_str(shell, "zsh"@) {
        (ShellRc::Zshrc, ShellType::Zsh)
    } else if contains_str(shell, "bash"@) {
        if !bashrc_exists && bash_profile_exists {
            (ShellRc::BashProfile, ShellType::Bash)
        } else {
            (ShellRc::Bashrc, ShellType::Bash)
        }
    } else if zshrc_exists {
        (ShellRc::Zshrc, ShellType::Zsh)
    } else {
        (ShellRc::Bashrc, ShellType::Bash)
    }
}

/// Picks the startup file from the `SHELL` variable and the files that
/// exist: the shell it names, preferring `.bashrc` to `.bash_profile`; with
/// no known shell, `.zshrc` if it exists, else `.bashrc`.
pub fn choose_shell_config(
    shell: &str,
    bashrc_exists: bool,
    bash_profile_exists: bool,
    zshrc_exists: bool,
) -> (r: (ShellRc, ShellType))
    ensures
        r == shell_choice(shell@, bashrc_exists, bash_profile_exists, zshrc_exists),
{
    proof {
        reveal_strlit("fish");
        reveal_strlit("zsh");
        reveal_strlit("bash");
    }
    if str_contains(shell, "fish") {
        (ShellRc::FishConfig, ShellType::Fish)
    } else if str_contains(shell, "zsh") {
        (ShellRc::Zshrc, ShellType::Zsh)
    } else if str_contains(shell, "bash") {
        if !bashrc_exists && bash_profile_exists {
            (ShellRc::BashProfile, ShellType::Bash)
        } else {
            (ShellRc::Bashrc, ShellType::Bash)
        }
    } else if zshrc_exists {
        (ShellRc::Zshrc, ShellType::Zsh)
    } else {
        (ShellRc::Bashrc, ShellType::Bash)
    }
}

pub open spec fn fish_block_head() -> Seq<char> {
    BLOCK_START@ + "\nset -gx NVM_HOME \""@
}

pub open spec fn fish_block_tail() -> Seq<char> {
    "\"\nset -gx NVM_BIN \"$NVM_HOME/bin\"\nset -gx NVM_NODE \"$NVM_HOME/current/bin\"\nfish_add_path $NVM_BIN $NVM_NODE\n"@
        + BLOCK_END@ + "\n"@
}

pub open spec fn sh_block_head() -> Seq<char> {
    BLOCK_START@ + "\nexport NVM_HOME=\""@
}

pub open spec fn sh_block_tail() -> Seq<char> {
    "\"\nexport NVM_BIN=\"$NVM_HOME/bin\"\nexport NVM_NODE=\"$NVM_HOME/current/bin\"\nexport PATH=\"$NVM_BIN:$NVM_NODE:$PATH\"\n"@
        + BLOCK_END@ + "\n"@
}

/// The block for the shell: the home variable set to `nvm_dir`, the two
/// derived variables, and both directories added to `PATH`, between the
/// start and end markers.
pub open spec fn shell_block(nvm_dir: Seq<char>, shell: ShellType) -> Seq<char> {
    if shell == ShellType::Fish {
        fish_block_head() + nvm_dir + fish_block_tail()
    } else {
        sh_block_head() + nvm_dir + sh_block_tail()
    }
}

/// Builds the startup-file block for the shell.
pub fn build_shell_block(nvm_dir: &str, shell: ShellType) -> (r: String)
    ensures
        r@ == shell_block(nvm_dir@, shell),
{
    proof {
        reveal_strlit("# >>> nvm-rs >>>");
        reveal_strlit("# <<< nvm-rs <<<");
        reveal_strlit("\nset -gx NVM_HOME \"");
        reveal_strlit("\"\nset -gx NVM_BIN \"$NVM_HOME/bin\"\nset -gx NVM_NODE \"$NVM_HOME/current/bin\"\nfish_add_path $NVM_BIN $NVM_NODE\n");
        reveal_strlit("\nexport NVM_HOME=\"");
        reveal_strlit("\"\nexport NVM_BIN=\"$NVM_HOME/bin\"\nexport NVM_NODE=\"$NVM_HOME/current/bin\"\nexport PATH=\"$NVM_BIN:$NVM_NODE:$PATH\"\n");
        reveal_strlit("\n");
    }
    let mut s = String::from_str(BLOCK_START);
    if shell == ShellType::Fish {
        s.append("\nset -gx NVM_HOME \"");
        s.append(nvm_dir);
        s.append(
            "\"\nset -gx NVM_BIN \"$NVM_HOME/bin\"\nset -gx NVM_NODE \"$NVM_HOME/current/bin\"\nfish_add_path $NVM_BIN $NVM_NODE\n",
        );
    } else {
        s.append("\nexport NVM_HOME=\"");
        s.append(nvm_dir);
        s.append(
            "\"\nexport NVM_BIN=\"$NVM_HOME/bin\"\nexport NVM_NODE=\"$NVM_HOME/current/bin\"\nexport PATH=\"$NVM_BIN:$NVM_NODE:$PATH\"\n",
        );
    }
    s.append(BLOCK_END);
    s.append("\n");
    proof {
        assert(s@ =~= shell_block(nvm_dir@, shell));
    }
    s
}

/// The startup file's text with the block added, unless both markers are
/// already there; the block starts on a line of its own.
pub open spec fn with_block(contents: Seq<char>, block: Seq<char>) -> Seq<char> {
    if contains_str(contents, BLOCK_START@) && contains_str(contents, BLOCK_END@) {
        contents
    } else if contents.len() > 0 && !ends_with_str(contents, "\n"@) {
        contents + "\n"@ + block
    } else {
        contents + block
    }
}

/// Adds the block to the startup file's text when it is not there yet.
pub fn with_shell_block(contents: &str, block: &str) -> (r: String)
    ensures
        r@ == with_block(contents@, block@),
{
    proof {
        reveal_strlit("# >>> nvm-rs >>>");
        reveal_strlit("# <<< nvm-rs <<<");
        reveal_strlit("\n");
    }
    let mut s = String::from_str(contents);
    if str_contains(contents, BLOCK_START) && str_contains(contents, BLOCK_END) {
        return s;
    }
    if contents.unicode_len() > 0 && !str_ends_with(contents, "\n") {
        s.append("\n");
    }
    s.append(block);
    s
}

pub open spec fn strip_cr(l: Seq<char>) -> Seq<char> {
    if l.len() > 0 && l.last() == '\r' {
        l.drop_last()
    } else {
        l
    }
}

/// The text without the block: each line (as `str::lines` splits them)
/// between a start marker line and an end marker line is dropped with the
/// markers; every kept line ends with a line feed.
#[verifier::opaque]
pub open spec fn without_block(text: Seq<char>, skipping: bool) -> Seq<char>
    decreases text.len(),
{
    if text.len() == 0 {
        Seq::empty()
    } else {
        let line0 = first_line(text);
        let terminated = line0.len() < text.len();
        let line = if terminated {
            strip_cr(line0)
        } else {
            line0
        };
        let rest = if terminated {
            text.skip(line0.len() + 1int)
        } else {
            Seq::empty()
        };
        if trimmed(line) == BLOCK_START@ {
            without_block(rest, true)
        } else if trimmed(line) == BLOCK_END@ {
            without_block(rest, false)
        } else if skipping {
            without_block(rest, true)
        } else {
            line + "\n"@ + without_block(rest, false)
        }
    }
}

pub open spec fn emitted(line: Seq<char>, skipping: bool) -> Seq<char> {
    if trimmed(line) == BLOCK_START@ || trimmed(line) == BLOCK_END@ || skipping {
        Seq::empty()
    } else {
        line + "\n"@
    }
}

pub open spec fn next_skipping(line: Seq<char>, skipping: bool) -> bool {
    if trimmed(line) == BLOCK_START@ {
        true
    } else if trimmed(line) == BLOCK_END@ {
        false
    } else {
        skipping
    }
}

pub open spec fn line_at(text: Seq<char>, start: int, e: int) -> Seq<char> {
    if e < text.len() {
        strip_cr(text.subrange(start, e))
    } else {
        text.subrange(start, e)
    }
}

proof fn lemma_block_step(text: Seq<char>, start: int, e: int, skipping: bool)
    requires
        0 <= start < text.len(),
        start <= e <= text.len(),
        forall|j: int| start <= j < e ==> text[j] != '\n',
        e == text.len() || text[e] == '\n',
    ensures
        without_block(text.skip(start), skipping) == emitted(line_at(text, start, e), skipping)
            + without_block(
            text.skip(
                if e < text.len() {
                    e + 1
                } else {
                    text.len() as int
                },
            ),
            next_skipping(line_at(text, start, e), skipping),
        ),
{
    reveal(without_block);
    lemma_next_line(text, start, e);
    let rest = text.skip(start);
    let line0 = first_line(rest);
    assert(line0 == text.subrange(start, e));
    if e == text.len() {
        assert(text.skip(text.len() as int) =~= Seq::<char>::empty());
        assert(line0.len() == rest.len());
    }
    let line = line_at(text, start, e);
    if emitted(line, skipping).len() == 0 {
        assert(Seq::<char>::empty() + without_block(
            text.skip(
                if e < text.len() {
                    e + 1
                } else {
                    text.len() as int
                },
            ),
            next_skipping(line, skipping),
        ) =~= without_block(
            text.skip(
                if e < text.len() {
                    e + 1
                } else {
                    text.len() as int
                },
            ),
            next_skipping(line, skipping),
        ));
    }
}

/// Removes the block from the startup file's text.
pub fn without_shell_block(text: &str) -> (r: String)
    ensures
        r@ == without_block(text@, false),
{
    proof {
        reveal_strlit("# >>> nvm-rs >>>");
        reveal_strlit("# <<< nvm-rs <<<");
        reveal_strlit("\n");
    }
    let n = text.unicode_len();
    let mut out = String::new();
    let mut skipping = false;
    let mut start: usize = 0;
    proof {
        assert(text@.skip(0) =~= text@);
        assert(out@ + without_block(text@, false) =~= without_block(text@, false));
    }
    while start < n
        invariant
            start <= n,
            n == text@.len(),
            out@ + without_block(text@.skip(start as int), skipping) == without_block(text@, false),
        decreases n - start,
    {
        let mut e = start;
        while e < n && text.get_char(e) != '\n'
            invariant
                start <= e <= n,
                n == text@.len(),
                forall|j: int| start <= j < e ==> text@[j] != '\n',
            decreases n - e,
        {
            e = e + 1;
        }
        let mut end = e;
        if e < n && e > start && text.get_char(e - 1) == '\r' {
            end = e - 1;
        }
        let line = text.substring_char(start, end);
        proof {
            let line0 = text@.subrange(start as int, e as int);
            if e < n {
                if e > start && text@[e - 1] == '\r' {
                    assert(line0.last() == '\r');
                    assert(line@ =~= line0.drop_last());
                } else {
                    assert(line@ =~= line0);
                }
            } else {
                assert(line@ =~= line0);
            }
            assert(line@ == line_at(text@, start as int, e as int));
            lemma_block_step(text@, start as int, e as int, skipping);
        }
        let t = trim_text(line);
        let ghost old_out = out@;
        let ghost old_skipping = skipping;
        if str_eq(t.as_str(), BLOCK_START) {
            skipping = true;
        } else if str_eq(t.as_str(), BLOCK_END) {
            skipping = false;
        } else if !skipping {
            out.append(line);
            out.append("\n");
        }
        proof {
            assert(out@ == old_out + emitted(line@, old_skipping));
            assert(skipping == next_skipping(line@, old_skipping));
        }
        if e < n {
            start = e + 1;
        } else {
            start = n;
        }
        proof {
            assert(out@ + without_block(text@.skip(start as int), skipping) =~= old_out + (emitted(
                line@,
                old_skipping,
            ) + without_block(text@.skip(start as int), skipping)));
        }
    }
    proof {
        assert(text@.skip(n as int) =~= Seq::<char>::empty());
        reveal(without_block);
        assert(out@ + Seq::<char>::empty() =~= out@);
    }
    out
}

pub open spec fn path_instructions(install_dir: Seq<char>) -> Seq<char> {
    "Para agregar nvm al PATH permanentemente:\n1. Abrir PowerShell como Administrador\n2. Ejecutar: $env:PATH += \";"@
        + install_dir + "\"\n3. O agregar manualmente a las Variables de Entorno del Sistema"@
}

/// How to put the install directory on `PATH` by hand on Windows.
pub fn get_path_instructions(install_dir: &str) -> (r: String)
    ensures
        r@ == path_instructions(install_dir@),
{
    proof {
        reveal_strlit("Para agregar nvm al PATH permanentemente:\n1. Abrir PowerShell como Administrador\n2. Ejecutar: $env:PATH += \";");
        reveal_strlit("\"\n3. O agregar manualmente a las Variables de Entorno del Sistema");
    }
    let mut s = String::from_str(
        "Para agregar nvm al PATH permanentemente:\n1. Abrir PowerShell como Administrador\n2. Ejecutar: $env:PATH += \";",
    );
    s.append(install_dir);
    s.append("\"\n3. O agregar manualmente a las Variables de Entorno del Sistema");
    s
}

} // verus!
