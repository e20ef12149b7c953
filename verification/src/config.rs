//! Settings.

use crate::clock::{Duration, MILLI};
use crate::float;
use crate::keys;
use crate::keys::small;
use crate::paths;
use crate::paths::join;
use crate::text;
use crate::text::{chars_of, same, trim};
use vstd::arithmetic::power2;
use vstd::prelude::*;

verus! {

/// The place of the mouth in the picture.
#[derive(Debug, Clone, Copy, PartialEq, Eq)]
pub struct MouthBox {
    pub x: u32,
    pub y: u32,
    pub w: u32,
    pub h: u32,
}

/// The settings of the talking picture. `scope_gain` is the bit pattern of an
/// `f32`.
#[derive(Debug, Clone, PartialEq, Eq)]
pub struct AvatarCfg {
    pub svg_path: String,
    pub device: String,
    pub width: u32,
    pub height: u32,
    pub fps: u32,
    pub mouth: MouthBox,
    pub scope_color: [u8; 3],
    pub scope_gain: u32,
}

/// The settings of the program. The place and the size of its window are the bit
/// patterns of `f32` numbers.
pub struct Config {
    pub json_path: String,
    pub x: u32,
    pub y: u32,
    pub width: u32,
    pub height: u32,
    pub bg_alpha: u8,
    pub click_through: bool,
    pub auto_hide_on_share: bool,
    pub detect_poll: Duration,
    pub autopilot_dir: String,
    pub autopilot_bin: String,
    pub avatar: AvatarCfg,
}

/// What the environment says: texts as they are, and numbers as the bit patterns
/// of the `f32` numbers that they are read as, where they are.
pub struct Overrides {
    pub json: Option<String>,
    pub x: Option<u32>,
    pub y: Option<u32>,
    pub width: Option<u32>,
    pub height: Option<u32>,
    pub bg_alpha: Option<u32>,
    pub click_through: Option<String>,
    pub auto_hide: Option<String>,
    pub autopilot_dir: Option<String>,
    pub autopilot_bin: Option<String>,
    pub avatar_svg: Option<String>,
    pub avatar_device: Option<String>,
    pub avatar_gain: Option<u32>,
}

/// A directory, the current one where it is not known.
pub open spec fn or_here(dir: Option<Seq<char>>) -> Seq<char> {
    match dir {
        Some(d) => d,
        None => "."@,
    }
}

fn or_current(dir: Option<&str>) -> (r: &str)
    ensures
        r@ == or_here(text::opt_str(dir)),
{
    match dir {
        Some(d) => d,
        None => ".",
    }
}

/// The picture in the user's own directory.
pub open spec fn svg_path_of(home: Option<Seq<char>>) -> Seq<char> {
    paths::join_of(paths::join_of(or_here(home), "Pictures"@), "panda.svg"@)
}

impl AvatarCfg {
    /// The settings where nothing says otherwise. `home` is the user's own
    /// directory.
    pub fn default(home: Option<&str>) -> (r: AvatarCfg)
        ensures
            r.svg_path@ == svg_path_of(text::opt_str(home)),
            r.device@ == "/dev/video10"@,
            r.width == 640,
            r.height == 480,
            r.fps == 30,
            r.mouth == (MouthBox { x: 150, y: 330, w: 340, h: 90 }),
            r.scope_color@ == seq![220u8, 30u8, 20u8],
            r.scope_gain == 0x40C0_0000,
    {
        let scope_color: [u8; 3] = [220, 30, 20];
        assert(scope_color@ =~= seq![220u8, 30u8, 20u8]);
        AvatarCfg {
            svg_path: join(join(or_current(home), "Pictures").as_str(), "panda.svg"),
            device: "/dev/video10".to_owned(),
            width: 640,
            height: 480,
            fps: 30,
            mouth: MouthBox { x: 150, y: 330, w: 340, h: 90 },
            scope_color,
            scope_gain: 0x40C0_0000,
        }
    }
}

/// The program below the autopilot's directory.
pub open spec fn autopilot_bin_of(dir: Seq<char>) -> Seq<char> {
    paths::join_of(paths::join_of(paths::join_of(dir, ".venv"@), "bin"@), "autopilot"@)
}

fn autopilot_bin(dir: &str) -> (r: String)
    ensures
        r@ == autopilot_bin_of(dir@),
{
    join(join(join(dir, ".venv").as_str(), "bin").as_str(), "autopilot")
}

/// The autopilot's directory where nothing says otherwise.
pub open spec fn autopilot_dir_of(home: Option<Seq<char>>) -> Seq<char> {
    paths::join_of(paths::join_of(or_here(home), "projects"@), "work-autopilot"@)
}

/// The file of the figures where nothing says otherwise.
pub open spec fn json_path_of(config_dir: Option<Seq<char>>) -> Seq<char> {
    paths::join_of(paths::join_of(or_here(config_dir), paths::APP_DIR@), "metrics.json"@)
}

/// An `f32` number, given by its bit pattern, as an opacity: the whole number
/// below it, none below 0 and none above 255. What is no number is 0.
pub open spec fn alpha_of(bits: u32) -> int {
    let exponent = bits / 0x0080_0000;
    if bits >= 0x8000_0000 || bits > 0x7F80_0000 || exponent < 127 {
        0
    } else if exponent >= 135 {
        255
    } else {
        (0x0080_0000 + bits % 0x0080_0000) / power2::pow2((150 - exponent) as nat) as int
    }
}

/// An opacity is a byte.
pub proof fn alpha_in_range(bits: u32)
    ensures
        0 <= alpha_of(bits) <= 255,
{
    let exponent = bits / 0x0080_0000;
    if bits < 0x8000_0000 && bits <= 0x7F80_0000 && 127 <= exponent < 135 {
        power2::lemma2_to64();
        let p = power2::pow2((150 - exponent) as nat) as int;
        let n = 0x0080_0000 + bits % 0x0080_0000;
        assert(p >= 0x1_0000) by {
            if 150 - exponent > 16 {
                vstd::arithmetic::power2::lemma_pow2_strictly_increases(
                    16,
                    (150 - exponent) as nat,
                );
            }
        }
        assert(0 <= n / p <= 255) by (nonlinear_arith)
            requires
                0 <= n < 0x100_0000,
                p >= 0x1_0000,
        ;
    }
}

/// An `f32` number, given by its bit pattern, as an opacity.
pub fn alpha(bits: u32) -> (r: u8)
    ensures
        r == alpha_of(bits),
{
    proof {
        alpha_in_range(bits);
    }
    let exponent: u32 = bits / 0x0080_0000;
    if bits >= 0x8000_0000 || bits > 0x7F80_0000 || exponent < 127 {
        0
    } else if exponent >= 135 {
        255
    } else {
        float::shift_down((0x0080_0000 + bits % 0x0080_0000) as u128, 150 - exponent) as u8
    }
}

/// A text in small letters of ASCII.
pub open spec fn small_text_of(s: Seq<char>) -> Seq<char> {
    s.map_values(|c: char| keys::small_of(c))
}

/// A word for yes or no.
pub open spec fn env_bool_of(s: Seq<char>) -> Option<bool> {
    let w = small_text_of(text::trim_of(s));
    if w == "1"@ || w == "true"@ || w == "yes"@ || w == "on"@ {
        Some(true)
    } else if w == "0"@ || w == "false"@ || w == "no"@ || w == "off"@ {
        Some(false)
    } else {
        None
    }
}

fn is_word(w: &Vec<char>, word: &str) -> (r: bool)
    ensures
        r == (w@ == word@),
{
    same(w.as_slice(), chars_of(word).as_slice())
}

/// A word for yes or no, in letters of any size.
pub fn env_bool(s: &str) -> (r: Option<bool>)
    ensures
        r == env_bool_of(s@),
{
    let chars = chars_of(s);
    let word = trim(chars.as_slice());
    let mut w: Vec<char> = Vec::new();
    let mut i: usize = 0;
    while i < word.len()
        invariant
            i <= word@.len(),
            w@ == small_text_of(word@.take(i as int)),
        decreases word.len() - i,
    {
        w.push(small(word[i]));
        assert(w@ =~= small_text_of(word@.take(i + 1)));
        i = i + 1;
    }
    assert(word@.take(word@.len() as int) =~= word@);
    if is_word(&w, "1") || is_word(&w, "true") || is_word(&w, "yes") || is_word(&w, "on") {
        Some(true)
    } else if is_word(&w, "0") || is_word(&w, "false") || is_word(&w, "no") || is_word(&w, "off") {
        Some(false)
    } else {
        None
    }
}

/// A word for yes is never one for no; white space round a word and the size of
/// its letters do not matter.
pub proof fn yes_and_no_are_told_apart(s: Seq<char>, w: Seq<char>)
    requires
        text::trim_of(s) == w || small_text_of(text::trim_of(s)) == small_text_of(text::trim_of(w)),
        text::trim_of(w) == w,
    ensures
        env_bool_of(s) == env_bool_of(w),
        small_text_of(w) == "on"@ || small_text_of(w) == "1"@ || small_text_of(w) == "true"@
            || small_text_of(w) == "yes"@ <==> env_bool_of(s) == Some(true),
        small_text_of(w) == "off"@ || small_text_of(w) == "0"@ || small_text_of(w) == "false"@
            || small_text_of(w) == "no"@ <==> env_bool_of(s) == Some(false),
{
    reveal_strlit("1");
    reveal_strlit("true");
    reveal_strlit("yes");
    reveal_strlit("on");
    reveal_strlit("0");
    reveal_strlit("false");
    reveal_strlit("no");
    reveal_strlit("off");
    assert("1"@[0] == '1' && "true"@[0] == 't' && "yes"@[0] == 'y' && "on"@.len() == 2
        && "on"@[0] == 'o');
    assert("0"@[0] == '0' && "false"@[0] == 'f' && "no"@[0] == 'n' && "off"@.len() == 3
        && "off"@[0] == 'o');
}

/// A switch: what the environment says of it, off where that is nothing.
pub open spec fn switch_of(said: Option<Seq<char>>) -> bool {
    match said {
        Some(s) => match env_bool_of(s) {
            Some(v) => v,
            None => false,
        },
        None => false,
    }
}

fn switch(said: &Option<String>) -> (r: bool)
    ensures
        r == switch_of(text::opt_text(*said)),
{
    match said {
        Some(s) => match env_bool(s.as_str()) {
            Some(v) => v,
            None => false,
        },
        None => false,
    }
}

/// What was said, or the other text.
pub open spec fn said_or(said: Option<Seq<char>>, other: Seq<char>) -> Seq<char> {
    match said {
        Some(s) => s,
        None => other,
    }
}

/// What was said, or the other number.
pub open spec fn number_or(said: Option<u32>, other: u32) -> u32 {
    match said {
        Some(n) => n,
        None => other,
    }
}

fn text_or(said: &Option<String>, other: String) -> (r: String)
    ensures
        r@ == said_or(text::opt_text(*said), other@),
{
    match said {
        Some(s) => s.clone(),
        None => other,
    }
}

fn bits_or(said: Option<u32>, other: u32) -> (r: u32)
    ensures
        r == number_or(said, other),
{
    match said {
        Some(n) => n,
        None => other,
    }
}

/// `r` are the settings: what the environment says, and otherwise what is usual.
pub open spec fn loaded(
    env: Overrides,
    home: Option<Seq<char>>,
    config_dir: Option<Seq<char>>,
    r: Config,
) -> bool {
    &&& r.json_path@ == said_or(
        text::opt_text(env.json),
        json_path_of(config_dir),
    )
    &&& r.x == number_or(env.x, 0x4220_0000)
    &&& r.y == number_or(env.y, 0x4270_0000)
    &&& r.width == number_or(env.width, 0x4382_0000)
    &&& r.height == number_or(env.height, 0x4348_0000)
    &&& r.bg_alpha == match env.bg_alpha {
        Some(bits) => alpha_of(bits),
        None => 220,
    }
    &&& r.click_through == switch_of(text::opt_text(env.click_through))
    &&& r.auto_hide_on_share == switch_of(text::opt_text(env.auto_hide))
    &&& r.detect_poll@ == 1000 * MILLI
    &&& r.autopilot_dir@ == said_or(
        text::opt_text(env.autopilot_dir),
        autopilot_dir_of(home),
    )
    &&& r.autopilot_bin@ == said_or(
        text::opt_text(env.autopilot_bin),
        autopilot_bin_of(r.autopilot_dir@),
    )
    &&& r.avatar.svg_path@ == said_or(
        text::opt_text(env.avatar_svg),
        svg_path_of(home),
    )
    &&& r.avatar.device@ == said_or(text::opt_text(env.avatar_device), "/dev/video10"@)
    &&& r.avatar.width == 640
    &&& r.avatar.height == 480
    &&& r.avatar.fps == 30
    &&& r.avatar.mouth == (MouthBox { x: 150, y: 330, w: 340, h: 90 })
    &&& r.avatar.scope_color@ == seq![220u8, 30u8, 20u8]
    &&& r.avatar.scope_gain == number_or(env.avatar_gain, 0x40C0_0000)
}

/// Whatever the environment says of a setting is what it is, and of no other
/// setting; what it does not say is as usual, whatever it says of the others.
pub proof fn settings_are_as_they_were_said(
    env: Overrides,
    home: Option<Seq<char>>,
    config_dir: Option<Seq<char>>,
    r: Config,
)
    requires
        loaded(env, home, config_dir, r),
    ensures
        env.json matches Some(s) ==> r.json_path@ == s@,
        env.x matches Some(n) ==> r.x == n,
        env.y matches Some(n) ==> r.y == n,
        env.width matches Some(n) ==> r.width == n,
        env.height matches Some(n) ==> r.height == n,
        env.bg_alpha matches Some(n) ==> r.bg_alpha == alpha_of(n),
        env.click_through matches Some(s) ==> r.click_through == (env_bool_of(s@) == Some(true)),
        env.auto_hide matches Some(s) ==> r.auto_hide_on_share == (env_bool_of(s@) == Some(true)),
        env.autopilot_dir matches Some(s) ==> r.autopilot_dir@ == s@,
        env.autopilot_bin matches Some(s) ==> r.autopilot_bin@ == s@,
        env.avatar_svg matches Some(s) ==> r.avatar.svg_path@ == s@,
        env.avatar_device matches Some(s) ==> r.avatar.device@ == s@,
        env.avatar_gain matches Some(n) ==> r.avatar.scope_gain == n,
        env.x is None ==> r.x == 0x4220_0000,
        env.y is None ==> r.y == 0x4270_0000,
        env.width is None ==> r.width == 0x4382_0000,
        env.height is None ==> r.height == 0x4348_0000,
        env.bg_alpha is None ==> r.bg_alpha == 220,
        env.click_through is None ==> !r.click_through,
        env.auto_hide is None ==> !r.auto_hide_on_share,
        env.avatar_gain is None ==> r.avatar.scope_gain == 0x40C0_0000,
        env.autopilot_bin is None ==> text::starts_of(r.autopilot_bin@, r.autopilot_dir@),
        r.detect_poll@ == 1_000_000_000,
{
    if env.autopilot_bin is None {
        let d = r.autopilot_dir@;
        let venv = paths::join_of(d, ".venv"@);
        let bin = paths::join_of(venv, "bin"@);
        reveal_strlit(".venv");
        reveal_strlit("bin");
        reveal_strlit("autopilot");
        assert(".venv"@[0] == '.' && "bin"@[0] == 'b' && "autopilot"@[0] == 'a');
        assert(paths::join_of(bin, "autopilot"@).subrange(0, d.len() as int) =~= d);
    }
}

impl Config {
    /// The settings: what the environment says, and otherwise what is usual.
    /// `home` and `config_dir` are the user's own directory and the one for
    /// settings.
    pub fn load(env: &Overrides, home: Option<&str>, config_dir: Option<&str>) -> (r: Config)
        ensures
            loaded(*env, text::opt_str(home), text::opt_str(config_dir), r),
    {
        let usual = AvatarCfg::default(home);
        let avatar = AvatarCfg {
            svg_path: text_or(&env.avatar_svg, usual.svg_path),
            device: text_or(&env.avatar_device, usual.device),
            width: usual.width,
            height: usual.height,
            fps: usual.fps,
            mouth: usual.mouth,
            scope_color: usual.scope_color,
            scope_gain: bits_or(env.avatar_gain, usual.scope_gain),
        };
        let json_path = join(
            join(or_current(config_dir), paths::APP_DIR).as_str(),
            "metrics.json",
        );
        let dir = join(join(or_current(home), "projects").as_str(), "work-autopilot");
        let autopilot_dir = text_or(&env.autopilot_dir, dir);
        let bin = autopilot_bin(autopilot_dir.as_str());
        Config {
            json_path: text_or(&env.json, json_path),
            x: bits_or(env.x, 0x4220_0000),
            y: bits_or(env.y, 0x4270_0000),
            width: bits_or(env.width, 0x4382_0000),
            height: bits_or(env.height, 0x4348_0000),
            bg_alpha: match env.bg_alpha {
                Some(bits) => alpha(bits),
                None => 220,
            },
            click_through: switch(&env.click_through),
            auto_hide_on_share: switch(&env.auto_hide),
            detect_poll: Duration::from_millis(1000),
            autopilot_dir,
            autopilot_bin: text_or(&env.autopilot_bin, bin),
            avatar,
        }
    }
}

} // verus!
