//! Pictures of a part of the screen.

use crate::paths;
use crate::paths::{in_app, join};
use crate::text;
use crate::text::{cat, cat3, same_str};
use vstd::prelude::*;

verus! {

/// The directory of the pictures, in the program's directory.
pub const SHOT_DIR: &'static str = "screenshots";

/// The program's entry among the applications.
pub const ENTRY_FILE: &'static str = "health-widget.desktop";

/// The window is given so many milliseconds to leave the screen.
pub const HIDE_MS: u64 = 120;

/// How far a picture is.
#[derive(Debug, PartialEq, Eq)]
pub enum ShotStatus {
    Idle,
    Marking,
    Working,
    Saved(String),
    Cancelled,
    Failed(String),
}

/// The program's entry among the applications, by which the window manager lets
/// it see the screen.
pub open spec fn entry_of(exe: Seq<char>) -> Seq<char> {
    "[Desktop Entry]\nType=Application\nName=Health Widget\nExec="@ + exe
        + "\nIcon=applications-utilities\nTerminal=false\nNoDisplay=true\nCategories=Utility;\nX-KDE-DBUS-Restricted-Interfaces=org.kde.KWin.ScreenShot2\n"@
}

/// The entry is that of an application, starts the program that was given, and
/// asks to be let see the screen.
pub proof fn entry_starts_the_program(exe: Seq<char>)
    ensures
        text::starts_of(entry_of(exe), "[Desktop Entry]\nType=Application\n"@),
        text::contains_of(entry_of(exe), "\nExec="@ + exe + "\n"@),
        text::ends_of(
            entry_of(exe),
            "\nX-KDE-DBUS-Restricted-Interfaces=org.kde.KWin.ScreenShot2\n"@,
        ),
{
    reveal_strlit("[Desktop Entry]\nType=Application\nName=Health Widget\nExec=");
    reveal_strlit(
        "\nIcon=applications-utilities\nTerminal=false\nNoDisplay=true\nCategories=Utility;\nX-KDE-DBUS-Restricted-Interfaces=org.kde.KWin.ScreenShot2\n",
    );
    reveal_strlit("[Desktop Entry]\nType=Application\n");
    reveal_strlit("\nExec=");
    reveal_strlit("\n");
    reveal_strlit("\nX-KDE-DBUS-Restricted-Interfaces=org.kde.KWin.ScreenShot2\n");
    let head = "[Desktop Entry]\nType=Application\nName=Health Widget\nExec="@;
    let tail = "\nIcon=applications-utilities\nTerminal=false\nNoDisplay=true\nCategories=Utility;\nX-KDE-DBUS-Restricted-Interfaces=org.kde.KWin.ScreenShot2\n"@;
    let first = "[Desktop Entry]\nType=Application\n"@;
    let last = "\nX-KDE-DBUS-Restricted-Interfaces=org.kde.KWin.ScreenShot2\n"@;
    let exec = "\nExec="@;
    let all = entry_of(exe);
    assert(head.subrange(0, first.len() as int) =~= first);
    assert(all.subrange(0, first.len() as int) =~= first);
    assert(tail.subrange(tail.len() - last.len(), tail.len() as int) =~= last);
    assert(all.subrange(all.len() - last.len(), all.len() as int) =~= last);
    assert(head.skip(head.len() - exec.len()) =~= exec);
    assert(tail.take(1) =~= "\n"@);
    text::parts_are_found(
        head.take(head.len() - exec.len()),
        exec + exe + "\n"@,
        tail.skip(1),
    );
    assert(all =~= head.take(head.len() - exec.len()) + (exec + exe + "\n"@) + tail.skip(1));
}

/// The program's entry among the applications.
pub fn entry(exe: &str) -> (r: String)
    ensures
        r@ == entry_of(exe@),
{
    cat3(
        "[Desktop Entry]\nType=Application\nName=Health Widget\nExec=",
        exe,
        "\nIcon=applications-utilities\nTerminal=false\nNoDisplay=true\nCategories=Utility;\nX-KDE-DBUS-Restricted-Interfaces=org.kde.KWin.ScreenShot2\n",
    )
}

/// The entry that has to be written: none where it is there already. `there` is
/// what the file holds.
pub open spec fn missing_of(exe: Seq<char>, there: Option<Seq<char>>) -> Option<Seq<char>> {
    if there == Some(entry_of(exe)) {
        None
    } else {
        Some(entry_of(exe))
    }
}

/// Once the entry is written nothing is missing.
pub proof fn registers_once(exe: Seq<char>, there: Option<Seq<char>>)
    ensures
        missing_of(exe, there) matches Some(e) ==> missing_of(exe, Some(e)) is None,
{
}

/// The entry that has to be written: none where it is there already. `there` is
/// what the file holds.
pub fn ensure_registered(exe: &str, there: Option<&str>) -> (r: Option<String>)
    ensures
        text::opt_text(r) == missing_of(exe@, text::opt_str(there)),
{
    let want = entry(exe);
    match there {
        Some(t) => if same_str(t, want.as_str()) {
            None
        } else {
            Some(want)
        },
        None => Some(want),
    }
}

/// The directory of the pictures, below the user's directory for data.
pub fn shot_dir(data_dir: Option<&str>) -> (r: Option<String>)
    ensures
        text::opt_text(r) == paths::in_app_of(text::opt_str(data_dir), SHOT_DIR@),
{
    in_app(data_dir, SHOT_DIR)
}

/// A part of the screen of which a picture is taken.
pub open spec fn takes_picture(w: u32, h: u32) -> bool {
    w != 0 && h != 0
}

/// A picture is taken of every part of the screen that has a pixel.
pub proof fn every_pixel_makes_a_picture(w: u32, h: u32)
    ensures
        takes_picture(w, h) <==> w * h >= 1,
{
    assert(w >= 1 && h >= 1 ==> w * h >= 1) by (nonlinear_arith);
    assert(w == 0 || h == 0 ==> w * h == 0) by (nonlinear_arith);
}

/// Where a picture goes, or how far it is where none is taken: an empty part of
/// the screen is no picture, and without a directory it cannot be kept.
pub fn grab(w: u32, h: u32, data_dir: Option<&str>) -> (r: Result<String, ShotStatus>)
    ensures
        match r {
            Ok(dir) => {
                &&& takes_picture(w, h)
                &&& paths::in_app_of(text::opt_str(data_dir), SHOT_DIR@) == Some(dir@)
            },
            Err(ShotStatus::Cancelled) => !takes_picture(w, h),
            Err(ShotStatus::Failed(m)) => {
                &&& takes_picture(w, h)
                &&& data_dir is None
                &&& m@ == "нет data-dir"@
            },
            Err(_) => false,
        },
{
    if w == 0 || h == 0 {
        return Err(ShotStatus::Cancelled);
    }
    match shot_dir(data_dir) {
        Some(dir) => Ok(dir),
        None => Err(ShotStatus::Failed("нет data-dir".to_owned())),
    }
}

/// The file of a picture; `stamp` is the time, where the clock could be read.
pub fn shot_path(dir: &str, stamp: Option<&str>) -> (r: String)
    ensures
        r@ == paths::join_of(
            dir@,
            match stamp {
                Some(s) => s@,
                None => "shot"@,
            } + ".png"@,
        ),
{
    match stamp {
        Some(s) => join(dir, cat(s, ".png").as_str()),
        None => join(dir, cat("shot", ".png").as_str()),
    }
}

} // verus!
