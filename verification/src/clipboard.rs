//! What is handed to PowerShell to put images and file objects on the
//! clipboard.

use vstd::prelude::*;
use crate::strings::string_views;

verus! {

/// How the paths go on the clipboard.
#[derive(Debug, Clone, Copy, PartialEq, Eq, Structural)]
pub enum ClipboardMode {
    /// The pixels of one image.
    Image,
    /// A list of file objects.
    File,
}

/// Why a request is turned down before PowerShell is started.
#[derive(Debug, Clone, Copy, PartialEq, Eq, Structural)]
pub enum ClipboardError {
    /// An image request must name exactly one path.
    ImageNeedsOnePath,
}

/// What the script runs for `mode`, with the paths in `$args`.
pub open spec fn script_body(mode: ClipboardMode) -> Seq<char> {
    match mode {
        ClipboardMode::Image => "$img = [System.Drawing.Image]::FromFile($args[0]); [System.Windows.Forms.Clipboard]::SetImage($img);"@,
        ClipboardMode::File => "$files = New-Object System.Collections.Specialized.StringCollection; $args | ForEach-Object { [void]$files.Add($_) }; [System.Windows.Forms.Clipboard]::SetFileDropList($files);"@,
    }
}

/// The script for `mode`: the assemblies are loaded first, then the body
/// runs as a script block, which is what makes the arguments that follow
/// the script reach it.
pub open spec fn script(mode: ClipboardMode) -> Seq<char> {
    "Add-Type -AssemblyName System.Windows.Forms; Add-Type -AssemblyName System.Drawing;"@
        + " & { "@ + script_body(mode) + " }"@
}

/// The arguments for PowerShell: the script and then the paths, each an
/// argument of its own and none a part of the script. An image request
/// with another number of paths than one is an error.
pub open spec fn arguments(paths: Seq<Seq<char>>, mode: ClipboardMode) -> Result<
    Seq<Seq<char>>,
    ClipboardError,
> {
    if mode == ClipboardMode::Image && paths.len() != 1 {
        Err(ClipboardError::ImageNeedsOnePath)
    } else {
        Ok(seq!["-NoProfile"@, "-Command"@, script(mode)] + paths)
    }
}

/// The script for `mode`.
pub fn powershell_script(mode: ClipboardMode) -> (out: String)
    ensures
        out@ == script(mode),
{
    let mut out = String::new();
    out.append(
        "Add-Type -AssemblyName System.Windows.Forms; Add-Type -AssemblyName System.Drawing;",
    );
    out.append(" & { ");
    match mode {
        ClipboardMode::Image => {
            out.append(
                "$img = [System.Drawing.Image]::FromFile($args[0]); [System.Windows.Forms.Clipboard]::SetImage($img);",
            );
        },
        ClipboardMode::File => {
            out.append(
                "$files = New-Object System.Collections.Specialized.StringCollection; $args | ForEach-Object { [void]$files.Add($_) }; [System.Windows.Forms.Clipboard]::SetFileDropList($files);",
            );
        },
    }
    out.append(" }");
    out
}

/// The arguments with which PowerShell is started for the paths and the
/// mode.
pub fn powershell_arguments(win_paths: &Vec<String>, mode: ClipboardMode) -> (r: Result<
    Vec<String>,
    ClipboardError,
>)
    ensures
        match r {
            Ok(args) => Ok::<Seq<Seq<char>>, ClipboardError>(string_views(args@)),
            Err(e) => Err(e),
        } == arguments(string_views(win_paths@), mode),
{
    if mode == ClipboardMode::Image && win_paths.len() != 1 {
        return Err(ClipboardError::ImageNeedsOnePath);
    }
    let mut args: Vec<String> = Vec::new();
    args.push("-NoProfile".to_owned());
    args.push("-Command".to_owned());
    args.push(powershell_script(mode));
    let ghost head = string_views(args@);
    assert(head == seq!["-NoProfile"@, "-Command"@, script(mode)]);
    let mut i: usize = 0;
    assert(string_views(win_paths@).take(0) == Seq::<Seq<char>>::empty());
    while i < win_paths.len()
        invariant
            i <= win_paths.len(),
            string_views(args@) == head + string_views(win_paths@).take(i as int),
        decreases win_paths.len() - i,
    {
        let item = win_paths[i].clone();
        assert(string_views(args@.push(item)) == string_views(args@).push(item@));
        assert(string_views(win_paths@).take(i + 1) == string_views(win_paths@).take(
            i as int,
        ).push(win_paths@[i as int]@));
        args.push(item);
        i += 1;
    }
    assert(string_views(win_paths@).take(i as int) == string_views(win_paths@));
    Ok(args)
}

impl ClipboardError {
    /// What to tell the user.
    pub fn message(&self) -> (text: String)
        ensures
            text@ == "Image mode currently supports exactly one file at a time."@,
    {
        "Image mode currently supports exactly one file at a time.".to_owned()
    }
}

} // verus!
