use wsl_clip::clipboard::{powershell_arguments, powershell_script, ClipboardError, ClipboardMode};

const IMAGE_SCRIPT: &str = "Add-Type -AssemblyName System.Windows.Forms; Add-Type -AssemblyName System.Drawing; & { $img = [System.Drawing.Image]::FromFile($args[0]); [System.Windows.Forms.Clipboard]::SetImage($img); }";
const FILE_SCRIPT: &str = "Add-Type -AssemblyName System.Windows.Forms; Add-Type -AssemblyName System.Drawing; & { $files = New-Object System.Collections.Specialized.StringCollection; $args | ForEach-Object { [void]$files.Add($_) }; [System.Windows.Forms.Clipboard]::SetFileDropList($files); }";

fn list(items: &[&str]) -> Vec<String> {
    items.iter().map(|i| i.to_string()).collect()
}

#[test]
fn the_script_loads_the_assemblies_and_runs_the_body_as_a_block() {
    assert_eq!(powershell_script(ClipboardMode::Image), IMAGE_SCRIPT);
    assert_eq!(powershell_script(ClipboardMode::File), FILE_SCRIPT);
}

#[test]
fn the_paths_follow_the_script_as_arguments() {
    assert_eq!(
        powershell_arguments(&list(&["C:\\a b.png"]), ClipboardMode::Image),
        Ok(list(&["-NoProfile", "-Command", IMAGE_SCRIPT, "C:\\a b.png"]))
    );
    assert_eq!(
        powershell_arguments(&list(&["C:\\a", "C:\\b; rm"]), ClipboardMode::File),
        Ok(list(&["-NoProfile", "-Command", FILE_SCRIPT, "C:\\a", "C:\\b; rm"]))
    );
    assert_eq!(
        powershell_arguments(&Vec::new(), ClipboardMode::File),
        Ok(list(&["-NoProfile", "-Command", FILE_SCRIPT]))
    );
}

#[test]
fn an_image_request_names_exactly_one_path() {
    assert_eq!(
        powershell_arguments(&list(&["a", "b"]), ClipboardMode::Image),
        Err(ClipboardError::ImageNeedsOnePath)
    );
    assert_eq!(
        powershell_arguments(&Vec::new(), ClipboardMode::Image),
        Err(ClipboardError::ImageNeedsOnePath)
    );
    assert_eq!(
        ClipboardError::ImageNeedsOnePath.message(),
        "Image mode currently supports exactly one file at a time."
    );
}
