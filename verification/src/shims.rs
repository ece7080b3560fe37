//! The shell shims cuvm installs: each defines a `cuvm` function that
//! evaluates the environment script of the activation verbs in the calling
//! shell and runs every other command directly.
use vstd::prelude::*;

verus! {

/// `cuvm.sh`: the bash shim, a `cuvm()` wrapper and the `__cuvm_autoload`
/// function that `cuvm hook --shell bash` chains into the prompt.
pub const BASH_SHIM: &'static str = r#"# cuvm shell integration for bash.
# Source it from ~/.bashrc:   . "$HOME/.cuvm/shims/cuvm.sh"
# The activation verbs print an environment script that is evaluated in this
# shell; every other command runs the binary directly.
cuvm() {
  case "$1" in
    use|env|shell|default)
      eval "$(command cuvm "$@" --shell bash)"
      ;;
    *)
      command cuvm "$@"
      ;;
  esac
}

# Re-activate for the current directory: the nearest .cuda-version, else the
# default alias, else nothing. `cuvm hook --shell bash` calls this on cd.
__cuvm_autoload() {
  eval "$(command cuvm env --shell bash)"
}
"#;

/// `cuvm.zsh`: the zsh shim. zsh evaluates the bash emission, whose syntax is
/// the same for these scripts.
pub const ZSH_SHIM: &'static str = r#"# cuvm shell integration for zsh.
# Source it from ~/.zshrc:   . "$HOME/.cuvm/shims/cuvm.zsh"
cuvm() {
  case "$1" in
    use|env|shell|default)
      eval "$(command cuvm "$@" --shell bash)"
      ;;
    *)
      command cuvm "$@"
      ;;
  esac
}

# Re-activate for the current directory; `cuvm hook --shell zsh` registers it
# as a chpwd hook.
__cuvm_autoload() {
  eval "$(command cuvm env --shell bash)"
}
"#;

/// `cuvm.ps1`: the PowerShell module function, dot-sourced into `$PROFILE`.
pub const POWERSHELL_SHIM: &'static str = r#"# cuvm shell integration for PowerShell.
# Dot-source it from $PROFILE:   . "$HOME\.cuvm\shims\cuvm.ps1"
function cuvm {
    if ($args.Count -gt 0 -and @('use','env','shell','default') -contains $args[0]) {
        $script = (& cuvm.exe @args --shell powershell) -join "`n"
        if ($LASTEXITCODE -eq 0 -and $script) {
            Invoke-Expression $script
        }
    } else {
        & cuvm.exe @args
    }
}
"#;

/// `cuvm.cmd`: the cmd.exe shim. cmd cannot evaluate output, so the
/// activation script goes to a temporary batch file that is called and then
/// deleted. No cd hook: `cuvm use` is manual here.
pub const CMD_SHIM: &'static str = r#"@echo off
rem cuvm shell integration for cmd.exe (manual `cuvm use` only).
if /i "%~1"=="use" goto activate
if /i "%~1"=="env" goto activate
cuvm.exe %*
exit /b %ERRORLEVEL%

:activate
set "__CUVM_BAT=%TEMP%\cuvm-env-%RANDOM%.bat"
cuvm.exe %* --shell cmd --out "%__CUVM_BAT%"
if errorlevel 1 (
  set "__CUVM_BAT="
  exit /b 1
)
call "%__CUVM_BAT%"
del "%__CUVM_BAT%" >nul 2>&1
set "__CUVM_BAT="
"#;

/// The PowerShell shim text.
pub fn windows_powershell() -> (r: &'static str)
    ensures
        r@ == POWERSHELL_SHIM@,
{
    POWERSHELL_SHIM
}

/// The cmd.exe shim text.
pub fn windows_cmd() -> (r: &'static str)
    ensures
        r@ == CMD_SHIM@,
{
    CMD_SHIM
}

} // verus!
