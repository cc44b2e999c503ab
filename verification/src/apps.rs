use vstd::prelude::*;
use vstd::string::{StrSliceExecFns, StringExecFns};

use crate::order::{lemma_lex_irreflexive, lemma_lex_total, lemma_lex_transitive, lex_less, lex_lt};
use crate::text::{
    ascii_folded, is_ascii_chars, is_ascii_lowercase_of, is_lowercase_ascii, same_chars, spec_to_lowercase, to_lowercase,
};
use std::collections::HashSet;

verus! {

/// A running application whose audio can be recorded.
#[derive(Debug, Clone)]
pub struct RecordableApp {
    pub id: String,
    pub name: String,
    pub executable: String,
    pub pid: Option<u32>,
    pub has_audio: bool,
    pub icon: Option<String>,
}

/// The executable names (lowercase, with or without `.exe`) of system
/// processes and of this application's own processes, which are never offered
/// for recording.
pub open spec fn system_process_names() -> Seq<Seq<char>> {
    seq![
        "system"@, "smss.exe"@, "csrss.exe"@, "wininit.exe"@, "services.exe"@,
        "lsass.exe"@, "svchost.exe"@, "fontdrvhost.exe"@, "dwm.exe"@, "sihost.exe"@,
        "taskhostw.exe"@, "searchhost.exe"@, "runtimebroker.exe"@, "startmenuexperiencehost.exe"@,
        "shellexperiencehost.exe"@, "lockapp.exe"@, "ctfmon.exe"@, "conhost.exe"@,
        "wlanext.exe"@, "spoolsv.exe"@, "audiodg.exe"@, "registry"@, "memory compression"@,
        "meetily.exe"@, "meetily-cuda.exe"@, "meetily-cpu.exe"@, "meetily-vulkan.exe"@,
        "llama-helper-x86_64-pc-windows-msvc.exe"@, "ffmpeg-x86_64-pc-windows-msvc.exe"@,
        "searchindexer.exe"@, "securityhealthservice.exe"@, "smartscreen.exe"@,
        "launchd"@, "kernel_task"@, "windowserver"@, "coreaudiod"@, "distnoted"@,
        "loginwindow"@, "finder"@, "dock"@, "systemuiserver"@, "controlcenter"@,
        "notificationcenter"@, "talagent"@, "tccd"@, "cfprefsd"@,
    ]
}

fn system_process_name_list() -> (names: Vec<&'static str>)
    ensures
        names@.len() == system_process_names().len(),
        forall|k: int| 0 <= k < names@.len() ==> #[trigger] names@[k]@ == system_process_names()[k],
{
    let names = vec![
        "system", "smss.exe", "csrss.exe", "wininit.exe", "services.exe",
        "lsass.exe", "svchost.exe", "fontdrvhost.exe", "dwm.exe", "sihost.exe",
        "taskhostw.exe", "searchhost.exe", "runtimebroker.exe", "startmenuexperiencehost.exe",
        "shellexperiencehost.exe", "lockapp.exe", "ctfmon.exe", "conhost.exe",
        "wlanext.exe", "spoolsv.exe", "audiodg.exe", "registry", "memory compression",
        "meetily.exe", "meetily-cuda.exe", "meetily-cpu.exe", "meetily-vulkan.exe",
        "llama-helper-x86_64-pc-windows-msvc.exe", "ffmpeg-x86_64-pc-windows-msvc.exe",
        "searchindexer.exe", "securityhealthservice.exe", "smartscreen.exe",
        "launchd", "kernel_task", "windowserver", "coreaudiod", "distnoted",
        "loginwindow", "finder", "dock", "systemuiserver", "controlcenter",
        "notificationcenter", "talagent", "tccd", "cfprefsd",
    ];
    names
}

/// `s` ends in `.exe`.
pub open spec fn ends_with_exe(s: Seq<char>) -> bool {
    &&& s.len() >= 4
    &&& s[s.len() - 4] == '.'
    &&& s[s.len() - 3] == 'e'
    &&& s[s.len() - 2] == 'x'
    &&& s[s.len() - 1] == 'e'
}

/// `s` without a trailing `.exe`, if it has one.
pub open spec fn without_exe(s: Seq<char>) -> Seq<char> {
    if ends_with_exe(s) {
        s.subrange(0, s.len() - 4)
    } else {
        s
    }
}

/// `s` without its trailing `.exe`.
fn strip_exe(s: &str) -> (base: &str)
    ensures
        base@ == without_exe(s@),
{
    let n = s.unicode_len();
    if n >= 4 && s.get_char(n - 4) == '.' && s.get_char(n - 3) == 'e' && s.get_char(n - 2) == 'x'
        && s.get_char(n - 1) == 'e' {
        s.substring_char(0, n - 4)
    } else {
        proof {
            assert(s@.subrange(0, n as int) =~= s@);
        }
        s.substring_char(0, n)
    }
}

/// A lowercase executable name belongs to a system process: it, or it without
/// `.exe`, is one of the system process names.
pub open spec fn is_system_name(lower: Seq<char>) -> bool {
    exists|k: int|
        0 <= k < system_process_names().len() && (lower == #[trigger] system_process_names()[k]
            || without_exe(lower) == system_process_names()[k])
}

/// Whether the lowercase executable name `lower` belongs to a system process.
pub fn is_system_name_lowercase(lower: &str) -> (system: bool)
    ensures
        system == is_system_name(lower@),
{
    let base = strip_exe(lower);
    let names = system_process_name_list();
    let mut k: usize = 0;
    while k < names.len()
        invariant
            k <= names@.len(),
            names@.len() == system_process_names().len(),
            forall|j: int|
                0 <= j < names@.len() ==> #[trigger] names@[j]@ == system_process_names()[j],
            base@ == without_exe(lower@),
            forall|j: int|
                0 <= j < k ==> lower@ != #[trigger] system_process_names()[j] && without_exe(
                    lower@,
                ) != system_process_names()[j],
        decreases names@.len() - k,
    {
        if same_chars(lower, names[k]) || same_chars(base, names[k]) {
            assert(lower@ == system_process_names()[k as int] || without_exe(lower@)
                == system_process_names()[k as int]);
            assert(is_system_name(lower@));
            return true;
        }
        k = k + 1;
    }
    false
}

/// Whether `name` is the executable of a system process, compared in lowercase.
pub fn is_system_process(name: &str) -> (system: bool)
    ensures
        system == is_system_name(spec_to_lowercase(name@)),
        is_ascii_chars(name@) ==> is_ascii_lowercase_of(spec_to_lowercase(name@), name@),
{
    let lower = to_lowercase(name);
    is_system_name_lowercase(lower.as_str())
}

/// Display names of well-known applications, by lowercase executable name
/// without `.exe`.
pub open spec fn friendly_name_table() -> Seq<(Seq<char>, Seq<char>)> {
    seq![
        ("zoom"@, "Zoom Workplace"@), ("zoomworkplace"@, "Zoom Workplace"@),
        ("teams"@, "Microsoft Teams"@), ("ms-teams"@, "Microsoft Teams"@),
        ("slack"@, "Slack"@), ("chrome"@, "Google Chrome"@), ("msedge"@, "Microsoft Edge"@),
        ("firefox"@, "Mozilla Firefox"@), ("spotify"@, "Spotify"@), ("discord"@, "Discord"@),
        ("skype"@, "Skype"@), ("webex"@, "Cisco Webex"@), ("atmgr"@, "Cisco Webex"@),
        ("telegram"@, "Telegram"@), ("whatsapp"@, "WhatsApp"@), ("vlc"@, "VLC Media Player"@),
        ("code"@, "Visual Studio Code"@), ("devenv"@, "Visual Studio"@),
        ("obs64"@, "OBS Studio"@), ("obs32"@, "OBS Studio"@), ("obs"@, "OBS Studio"@),
        ("safari"@, "Safari"@), ("facetime"@, "FaceTime"@),
    ]
}

fn friendly_name_list() -> (table: Vec<(&'static str, &'static str)>)
    ensures
        table@.len() == friendly_name_table().len(),
        forall|k: int|
            0 <= k < table@.len() ==> (#[trigger] table@[k]).0@ == friendly_name_table()[k].0
                && table@[k].1@ == friendly_name_table()[k].1,
{
    let table = vec![
        ("zoom", "Zoom Workplace"), ("zoomworkplace", "Zoom Workplace"),
        ("teams", "Microsoft Teams"), ("ms-teams", "Microsoft Teams"),
        ("slack", "Slack"), ("chrome", "Google Chrome"), ("msedge", "Microsoft Edge"),
        ("firefox", "Mozilla Firefox"), ("spotify", "Spotify"), ("discord", "Discord"),
        ("skype", "Skype"), ("webex", "Cisco Webex"), ("atmgr", "Cisco Webex"),
        ("telegram", "Telegram"), ("whatsapp", "WhatsApp"), ("vlc", "VLC Media Player"),
        ("code", "Visual Studio Code"), ("devenv", "Visual Studio"),
        ("obs64", "OBS Studio"), ("obs32", "OBS Studio"), ("obs", "OBS Studio"),
        ("safari", "Safari"), ("facetime", "FaceTime"),
    ];
    table
}

/// The display name the first table entry for `key` gives, if any.
pub open spec fn table_lookup(table: Seq<(Seq<char>, Seq<char>)>, key: Seq<char>) -> Option<
    Seq<char>,
>
    decreases table.len(),
{
    if table.len() == 0 {
        None
    } else if table[0].0 == key {
        Some(table[0].1)
    } else {
        table_lookup(table.drop_first(), key)
    }
}

/// The uppercase mapping of a character, as `char::to_uppercase` yields it.
pub uninterp spec fn spec_char_to_uppercase(c: char) -> Seq<char>;

/// Calls `char::to_uppercase` and collects what it yields. Claimed: the
/// result is a function of the character alone, named
/// `spec_char_to_uppercase`, and (as documented) holds one or more
/// characters; the Unicode case mapping itself is left unsaid.
#[verifier::external_body]
fn char_to_uppercase(c: char) -> (upper: String)
    ensures
        upper@ == spec_char_to_uppercase(c),
        upper@.len() >= 1,
{
    c.to_uppercase().collect::<String>()
}

/// The display name of the executable `exe_name` whose lowercase form is
/// `lower`: the table entry for `lower` without `.exe`, else that name with its
/// first character uppercased, else (for an empty name) the executable name.
pub open spec fn friendly_name_for(exe_name: Seq<char>, lower: Seq<char>) -> Seq<char> {
    let base = without_exe(lower);
    match table_lookup(friendly_name_table(), base) {
        Some(display) => display,
        None => if base.len() == 0 {
            exe_name
        } else {
            spec_char_to_uppercase(base[0]) + base.drop_first()
        },
    }
}

/// The display name of an executable (see `friendly_name_for`).
pub open spec fn friendly_name(exe_name: Seq<char>) -> Seq<char> {
    friendly_name_for(exe_name, spec_to_lowercase(exe_name))
}

/// The display name of `exe_name`, given its lowercase form `lower` (see
/// `friendly_name_for`).
pub fn friendly_name_from_lowercase(exe_name: &str, lower: &str) -> (name: String)
    ensures
        name@ == friendly_name_for(exe_name@, lower@),
{
    let base = strip_exe(lower);
    let table = friendly_name_list();
    assert(friendly_name_table().skip(0) =~= friendly_name_table());
    let mut k: usize = 0;
    while k < table.len()
        invariant
            k <= table@.len(),
            table@.len() == friendly_name_table().len(),
            forall|j: int|
                0 <= j < table@.len() ==> (#[trigger] table@[j]).0@ == friendly_name_table()[j].0
                    && table@[j].1@ == friendly_name_table()[j].1,
            base@ == without_exe(lower@),
            table_lookup(friendly_name_table(), base@) == table_lookup(
                friendly_name_table().skip(k as int),
                base@,
            ),
        decreases table@.len() - k,
    {
        let ghost rest = friendly_name_table().skip(k as int);
        assert(rest[0] == friendly_name_table()[k as int]);
        assert(rest.drop_first() =~= friendly_name_table().skip(k + 1));
        let (key, display) = table[k];
        if same_chars(base, key) {
            return String::from_str(display);
        }
        k = k + 1;
    }
    assert(friendly_name_table().skip(k as int).len() == 0);
    let n = base.unicode_len();
    if n == 0 {
        return String::from_str(exe_name);
    }
    let mut name = char_to_uppercase(base.get_char(0));
    name.append(base.substring_char(1, n));
    proof {
        assert(base@.subrange(1, n as int) =~= base@.drop_first());
    }
    name
}

/// The display name of an executable (see `friendly_name`).
pub fn get_friendly_name(exe_name: &str) -> (name: String)
    ensures
        name@ == friendly_name(exe_name@),
        is_ascii_chars(exe_name@) ==> is_ascii_lowercase_of(spec_to_lowercase(exe_name@), exe_name@),
{
    let lower = to_lowercase(exe_name);
    friendly_name_from_lowercase(exe_name, lower.as_str())
}

proof fn lemma_table_lookup_at(table: Seq<(Seq<char>, Seq<char>)>, key: Seq<char>, k: int)
    requires
        0 <= k < table.len(),
        table[k].0 == key,
        forall|i: int| 0 <= i < k ==> #[trigger] table[i].0 != key,
    ensures
        table_lookup(table, key) == Some(table[k].1),
    decreases k,
{
    if k > 0 {
        let t = table.drop_first();
        assert forall|i: int| 0 <= i < k - 1 implies #[trigger] t[i].0 != key by {
            assert(t[i] == table[i + 1]);
        }
        assert(t[k - 1] == table[k]);
        assert(table[0].0 != key);
        lemma_table_lookup_at(t, key, k - 1);
    }
}

/// The well-known executables keep their fixed display names, whatever the
/// executable name and whether or not its lowercase form `lower` ends in
/// `.exe`: `zoom` and `zoomworkplace` are Zoom Workplace, `teams` and
/// `ms-teams` Microsoft Teams, `msedge` Microsoft Edge, and so on for each
/// application below. (For an ASCII name, `lower` is the name with its
/// letters lowercased, so any ASCII case of these names gets them; see
/// `get_friendly_name` and `lemma_ascii_lowercase_of_word`.)
pub proof fn lemma_known_friendly_names(exe_name: Seq<char>, lower: Seq<char>)
    ensures
        without_exe(lower) == "zoom"@ ==> friendly_name_for(exe_name, lower) == "Zoom Workplace"@,
        without_exe(lower) == "zoomworkplace"@ ==> friendly_name_for(exe_name, lower) == "Zoom Workplace"@,
        without_exe(lower) == "teams"@ ==> friendly_name_for(exe_name, lower) == "Microsoft Teams"@,
        without_exe(lower) == "ms-teams"@ ==> friendly_name_for(exe_name, lower) == "Microsoft Teams"@,
        without_exe(lower) == "slack"@ ==> friendly_name_for(exe_name, lower) == "Slack"@,
        without_exe(lower) == "chrome"@ ==> friendly_name_for(exe_name, lower) == "Google Chrome"@,
        without_exe(lower) == "msedge"@ ==> friendly_name_for(exe_name, lower) == "Microsoft Edge"@,
        without_exe(lower) == "firefox"@ ==> friendly_name_for(exe_name, lower) == "Mozilla Firefox"@,
        without_exe(lower) == "spotify"@ ==> friendly_name_for(exe_name, lower) == "Spotify"@,
        without_exe(lower) == "discord"@ ==> friendly_name_for(exe_name, lower) == "Discord"@,
        without_exe(lower) == "skype"@ ==> friendly_name_for(exe_name, lower) == "Skype"@,
        without_exe(lower) == "webex"@ ==> friendly_name_for(exe_name, lower) == "Cisco Webex"@,
        without_exe(lower) == "atmgr"@ ==> friendly_name_for(exe_name, lower) == "Cisco Webex"@,
        without_exe(lower) == "telegram"@ ==> friendly_name_for(exe_name, lower) == "Telegram"@,
        without_exe(lower) == "whatsapp"@ ==> friendly_name_for(exe_name, lower) == "WhatsApp"@,
        without_exe(lower) == "vlc"@ ==> friendly_name_for(exe_name, lower) == "VLC Media Player"@,
        without_exe(lower) == "code"@ ==> friendly_name_for(exe_name, lower) == "Visual Studio Code"@,
        without_exe(lower) == "devenv"@ ==> friendly_name_for(exe_name, lower) == "Visual Studio"@,
        without_exe(lower) == "obs64"@ ==> friendly_name_for(exe_name, lower) == "OBS Studio"@,
        without_exe(lower) == "obs32"@ ==> friendly_name_for(exe_name, lower) == "OBS Studio"@,
        without_exe(lower) == "obs"@ ==> friendly_name_for(exe_name, lower) == "OBS Studio"@,
        without_exe(lower) == "safari"@ ==> friendly_name_for(exe_name, lower) == "Safari"@,
        without_exe(lower) == "facetime"@ ==> friendly_name_for(exe_name, lower) == "FaceTime"@,
{
    let t = friendly_name_table();
    reveal_strlit("zoom");
    reveal_strlit("zoomworkplace");
    reveal_strlit("teams");
    reveal_strlit("ms-teams");
    reveal_strlit("slack");
    reveal_strlit("chrome");
    reveal_strlit("msedge");
    reveal_strlit("firefox");
    reveal_strlit("spotify");
    reveal_strlit("discord");
    reveal_strlit("skype");
    reveal_strlit("webex");
    reveal_strlit("atmgr");
    reveal_strlit("telegram");
    reveal_strlit("whatsapp");
    reveal_strlit("vlc");
    reveal_strlit("code");
    reveal_strlit("devenv");
    reveal_strlit("obs64");
    reveal_strlit("obs32");
    reveal_strlit("obs");
    reveal_strlit("safari");
    reveal_strlit("facetime");
    if without_exe(lower) == "zoom"@ {
        assert(t[0] == ("zoom"@, "Zoom Workplace"@));
        lemma_table_lookup_at(t, "zoom"@, 0);
    }
    if without_exe(lower) == "zoomworkplace"@ {
        assert(t[1] == ("zoomworkplace"@, "Zoom Workplace"@));
        assert forall|i: int| 0 <= i < 1 implies #[trigger] t[i].0 != "zoomworkplace"@ by {
            if i == 0 {
                assert(t[0].0 == "zoom"@ && "zoom"@.len() == 4 && "zoomworkplace"@.len() == 13);
            }
        }
        lemma_table_lookup_at(t, "zoomworkplace"@, 1);
    }
    if without_exe(lower) == "teams"@ {
        assert(t[2] == ("teams"@, "Microsoft Teams"@));
        assert forall|i: int| 0 <= i < 2 implies #[trigger] t[i].0 != "teams"@ by {
            if i == 0 {
                assert(t[0].0 == "zoom"@ && "zoom"@.len() == 4 && "teams"@.len() == 5);
            } else if i == 1 {
                assert(t[1].0 == "zoomworkplace"@ && "zoomworkplace"@.len() == 13 && "teams"@.len() == 5);
            }
        }
        lemma_table_lookup_at(t, "teams"@, 2);
    }
    if without_exe(lower) == "ms-teams"@ {
        assert(t[3] == ("ms-teams"@, "Microsoft Teams"@));
        assert forall|i: int| 0 <= i < 3 implies #[trigger] t[i].0 != "ms-teams"@ by {
            if i == 0 {
                assert(t[0].0 == "zoom"@ && "zoom"@.len() == 4 && "ms-teams"@.len() == 8);
            } else if i == 1 {
                assert(t[1].0 == "zoomworkplace"@ && "zoomworkplace"@.len() == 13 && "ms-teams"@.len() == 8);
            } else if i == 2 {
                assert(t[2].0 == "teams"@ && "teams"@.len() == 5 && "ms-teams"@.len() == 8);
            }
        }
        lemma_table_lookup_at(t, "ms-teams"@, 3);
    }
    if without_exe(lower) == "slack"@ {
        assert(t[4] == ("slack"@, "Slack"@));
        assert forall|i: int| 0 <= i < 4 implies #[trigger] t[i].0 != "slack"@ by {
            if i == 0 {
                assert(t[0].0 == "zoom"@ && "zoom"@.len() == 4 && "slack"@.len() == 5);
            } else if i == 1 {
                assert(t[1].0 == "zoomworkplace"@ && "zoomworkplace"@.len() == 13 && "slack"@.len() == 5);
            } else if i == 2 {
                assert(t[2].0 == "teams"@ && "teams"@[0] == 't' && "slack"@[0] == 's');
            } else if i == 3 {
                assert(t[3].0 == "ms-teams"@ && "ms-teams"@.len() == 8 && "slack"@.len() == 5);
            }
        }
        lemma_table_lookup_at(t, "slack"@, 4);
    }
    if without_exe(lower) == "chrome"@ {
        assert(t[5] == ("chrome"@, "Google Chrome"@));
        assert forall|i: int| 0 <= i < 5 implies #[trigger] t[i].0 != "chrome"@ by {
            if i == 0 {
                assert(t[0].0 == "zoom"@ && "zoom"@.len() == 4 && "chrome"@.len() == 6);
            } else if i == 1 {
                assert(t[1].0 == "zoomworkplace"@ && "zoomworkplace"@.len() == 13 && "chrome"@.len() == 6);
            } else if i == 2 {
                assert(t[2].0 == "teams"@ && "teams"@.len() == 5 && "chrome"@.len() == 6);
            } else if i == 3 {
                assert(t[3].0 == "ms-teams"@ && "ms-teams"@.len() == 8 && "chrome"@.len() == 6);
            } else if i == 4 {
                assert(t[4].0 == "slack"@ && "slack"@.len() == 5 && "chrome"@.len() == 6);
            }
        }
        lemma_table_lookup_at(t, "chrome"@, 5);
    }
    if without_exe(lower) == "msedge"@ {
        assert(t[6] == ("msedge"@, "Microsoft Edge"@));
        assert forall|i: int| 0 <= i < 6 implies #[trigger] t[i].0 != "msedge"@ by {
            if i == 0 {
                assert(t[0].0 == "zoom"@ && "zoom"@.len() == 4 && "msedge"@.len() == 6);
            } else if i == 1 {
                assert(t[1].0 == "zoomworkplace"@ && "zoomworkplace"@.len() == 13 && "msedge"@.len() == 6);
            } else if i == 2 {
                assert(t[2].0 == "teams"@ && "teams"@.len() == 5 && "msedge"@.len() == 6);
            } else if i == 3 {
                assert(t[3].0 == "ms-teams"@ && "ms-teams"@.len() == 8 && "msedge"@.len() == 6);
            } else if i == 4 {
                assert(t[4].0 == "slack"@ && "slack"@.len() == 5 && "msedge"@.len() == 6);
            } else if i == 5 {
                assert(t[5].0 == "chrome"@ && "chrome"@[0] == 'c' && "msedge"@[0] == 'm');
            }
        }
        lemma_table_lookup_at(t, "msedge"@, 6);
    }
    if without_exe(lower) == "firefox"@ {
        assert(t[7] == ("firefox"@, "Mozilla Firefox"@));
        assert forall|i: int| 0 <= i < 7 implies #[trigger] t[i].0 != "firefox"@ by {
            if i == 0 {
                assert(t[0].0 == "zoom"@ && "zoom"@.len() == 4 && "firefox"@.len() == 7);
            } else if i == 1 {
                assert(t[1].0 == "zoomworkplace"@ && "zoomworkplace"@.len() == 13 && "firefox"@.len() == 7);
            } else if i == 2 {
                assert(t[2].0 == "teams"@ && "teams"@.len() == 5 && "firefox"@.len() == 7);
            } else if i == 3 {
                assert(t[3].0 == "ms-teams"@ && "ms-teams"@.len() == 8 && "firefox"@.len() == 7);
            } else if i == 4 {
                assert(t[4].0 == "slack"@ && "slack"@.len() == 5 && "firefox"@.len() == 7);
            } else if i == 5 {
                assert(t[5].0 == "chrome"@ && "chrome"@.len() == 6 && "firefox"@.len() == 7);
            } else if i == 6 {
                assert(t[6].0 == "msedge"@ && "msedge"@.len() == 6 && "firefox"@.len() == 7);
            }
        }
        lemma_table_lookup_at(t, "firefox"@, 7);
    }
    if without_exe(lower) == "spotify"@ {
        assert(t[8] == ("spotify"@, "Spotify"@));
        assert forall|i: int| 0 <= i < 8 implies #[trigger] t[i].0 != "spotify"@ by {
            if i == 0 {
                assert(t[0].0 == "zoom"@ && "zoom"@.len() == 4 && "spotify"@.len() == 7);
            } else if i == 1 {
                assert(t[1].0 == "zoomworkplace"@ && "zoomworkplace"@.len() == 13 && "spotify"@.len() == 7);
            } else if i == 2 {
                assert(t[2].0 == "teams"@ && "teams"@.len() == 5 && "spotify"@.len() == 7);
            } else if i == 3 {
                assert(t[3].0 == "ms-teams"@ && "ms-teams"@.len() == 8 && "spotify"@.len() == 7);
            } else if i == 4 {
                assert(t[4].0 == "slack"@ && "slack"@.len() == 5 && "spotify"@.len() == 7);
            } else if i == 5 {
                assert(t[5].0 == "chrome"@ && "chrome"@.len() == 6 && "spotify"@.len() == 7);
            } else if i == 6 {
                assert(t[6].0 == "msedge"@ && "msedge"@.len() == 6 && "spotify"@.len() == 7);
            } else if i == 7 {
                assert(t[7].0 == "firefox"@ && "firefox"@[0] == 'f' && "spotify"@[0] == 's');
            }
        }
        lemma_table_lookup_at(t, "spotify"@, 8);
    }
    if without_exe(lower) == "discord"@ {
        assert(t[9] == ("discord"@, "Discord"@));
        assert forall|i: int| 0 <= i < 9 implies #[trigger] t[i].0 != "discord"@ by {
            if i == 0 {
                assert(t[0].0 == "zoom"@ && "zoom"@.len() == 4 && "discord"@.len() == 7);
            } else if i == 1 {
                assert(t[1].0 == "zoomworkplace"@ && "zoomworkplace"@.len() == 13 && "discord"@.len() == 7);
            } else if i == 2 {
                assert(t[2].0 == "teams"@ && "teams"@.len() == 5 && "discord"@.len() == 7);
            } else if i == 3 {
                assert(t[3].0 == "ms-teams"@ && "ms-teams"@.len() == 8 && "discord"@.len() == 7);
            } else if i == 4 {
                assert(t[4].0 == "slack"@ && "slack"@.len() == 5 && "discord"@.len() == 7);
            } else if i == 5 {
                assert(t[5].0 == "chrome"@ && "chrome"@.len() == 6 && "discord"@.len() == 7);
            } else if i == 6 {
                assert(t[6].0 == "msedge"@ && "msedge"@.len() == 6 && "discord"@.len() == 7);
            } else if i == 7 {
                assert(t[7].0 == "firefox"@ && "firefox"@[0] == 'f' && "discord"@[0] == 'd');
            } else if i == 8 {
                assert(t[8].0 == "spotify"@ && "spotify"@[0] == 's' && "discord"@[0] == 'd');
            }
        }
        lemma_table_lookup_at(t, "discord"@, 9);
    }
    if without_exe(lower) == "skype"@ {
        assert(t[10] == ("skype"@, "Skype"@));
        assert forall|i: int| 0 <= i < 10 implies #[trigger] t[i].0 != "skype"@ by {
            if i == 0 {
                assert(t[0].0 == "zoom"@ && "zoom"@.len() == 4 && "skype"@.len() == 5);
            } else if i == 1 {
                assert(t[1].0 == "zoomworkplace"@ && "zoomworkplace"@.len() == 13 && "skype"@.len() == 5);
            } else if i == 2 {
                assert(t[2].0 == "teams"@ && "teams"@[0] == 't' && "skype"@[0] == 's');
            } else if i == 3 {
                assert(t[3].0 == "ms-teams"@ && "ms-teams"@.len() == 8 && "skype"@.len() == 5);
            } else if i == 4 {
                assert(t[4].0 == "slack"@ && "slack"@[1] == 'l' && "skype"@[1] == 'k');
            } else if i == 5 {
                assert(t[5].0 == "chrome"@ && "chrome"@.len() == 6 && "skype"@.len() == 5);
            } else if i == 6 {
                assert(t[6].0 == "msedge"@ && "msedge"@.len() == 6 && "skype"@.len() == 5);
            } else if i == 7 {
                assert(t[7].0 == "firefox"@ && "firefox"@.len() == 7 && "skype"@.len() == 5);
            } else if i == 8 {
                assert(t[8].0 == "spotify"@ && "spotify"@.len() == 7 && "skype"@.len() == 5);
            } else if i == 9 {
                assert(t[9].0 == "discord"@ && "discord"@.len() == 7 && "skype"@.len() == 5);
            }
        }
        lemma_table_lookup_at(t, "skype"@, 10);
    }
    if without_exe(lower) == "webex"@ {
        assert(t[11] == ("webex"@, "Cisco Webex"@));
        assert forall|i: int| 0 <= i < 11 implies #[trigger] t[i].0 != "webex"@ by {
            if i == 0 {
                assert(t[0].0 == "zoom"@ && "zoom"@.len() == 4 && "webex"@.len() == 5);
            } else if i == 1 {
                assert(t[1].0 == "zoomworkplace"@ && "zoomworkplace"@.len() == 13 && "webex"@.len() == 5);
            } else if i == 2 {
                assert(t[2].0 == "teams"@ && "teams"@[0] == 't' && "webex"@[0] == 'w');
            } else if i == 3 {
                assert(t[3].0 == "ms-teams"@ && "ms-teams"@.len() == 8 && "webex"@.len() == 5);
            } else if i == 4 {
                assert(t[4].0 == "slack"@ && "slack"@[0] == 's' && "webex"@[0] == 'w');
            } else if i == 5 {
                assert(t[5].0 == "chrome"@ && "chrome"@.len() == 6 && "webex"@.len() == 5);
            } else if i == 6 {
                assert(t[6].0 == "msedge"@ && "msedge"@.len() == 6 && "webex"@.len() == 5);
            } else if i == 7 {
                assert(t[7].0 == "firefox"@ && "firefox"@.len() == 7 && "webex"@.len() == 5);
            } else if i == 8 {
                assert(t[8].0 == "spotify"@ && "spotify"@.len() == 7 && "webex"@.len() == 5);
            } else if i == 9 {
                assert(t[9].0 == "discord"@ && "discord"@.len() == 7 && "webex"@.len() == 5);
            } else if i == 10 {
                assert(t[10].0 == "skype"@ && "skype"@[0] == 's' && "webex"@[0] == 'w');
            }
        }
        lemma_table_lookup_at(t, "webex"@, 11);
    }
    if without_exe(lower) == "atmgr"@ {
        assert(t[12] == ("atmgr"@, "Cisco Webex"@));
        assert forall|i: int| 0 <= i < 12 implies #[trigger] t[i].0 != "atmgr"@ by {
            if i == 0 {
                assert(t[0].0 == "zoom"@ && "zoom"@.len() == 4 && "atmgr"@.len() == 5);
            } else if i == 1 {
                assert(t[1].0 == "zoomworkplace"@ && "zoomworkplace"@.len() == 13 && "atmgr"@.len() == 5);
            } else if i == 2 {
                assert(t[2].0 == "teams"@ && "teams"@[0] == 't' && "atmgr"@[0] == 'a');
            } else if i == 3 {
                assert(t[3].0 == "ms-teams"@ && "ms-teams"@.len() == 8 && "atmgr"@.len() == 5);
            } else if i == 4 {
                assert(t[4].0 == "slack"@ && "slack"@[0] == 's' && "atmgr"@[0] == 'a');
            } else if i == 5 {
                assert(t[5].0 == "chrome"@ && "chrome"@.len() == 6 && "atmgr"@.len() == 5);
            } else if i == 6 {
                assert(t[6].0 == "msedge"@ && "msedge"@.len() == 6 && "atmgr"@.len() == 5);
            } else if i == 7 {
                assert(t[7].0 == "firefox"@ && "firefox"@.len() == 7 && "atmgr"@.len() == 5);
            } else if i == 8 {
                assert(t[8].0 == "spotify"@ && "spotify"@.len() == 7 && "atmgr"@.len() == 5);
            } else if i == 9 {
                assert(t[9].0 == "discord"@ && "discord"@.len() == 7 && "atmgr"@.len() == 5);
            } else if i == 10 {
                assert(t[10].0 == "skype"@ && "skype"@[0] == 's' && "atmgr"@[0] == 'a');
            } else if i == 11 {
                assert(t[11].0 == "webex"@ && "webex"@[0] == 'w' && "atmgr"@[0] == 'a');
            }
        }
        lemma_table_lookup_at(t, "atmgr"@, 12);
    }
    if without_exe(lower) == "telegram"@ {
        assert(t[13] == ("telegram"@, "Telegram"@));
        assert forall|i: int| 0 <= i < 13 implies #[trigger] t[i].0 != "telegram"@ by {
            if i == 0 {
                assert(t[0].0 == "zoom"@ && "zoom"@.len() == 4 && "telegram"@.len() == 8);
            } else if i == 1 {
                assert(t[1].0 == "zoomworkplace"@ && "zoomworkplace"@.len() == 13 && "telegram"@.len() == 8);
            } else if i == 2 {
                assert(t[2].0 == "teams"@ && "teams"@.len() == 5 && "telegram"@.len() == 8);
            } else if i == 3 {
                assert(t[3].0 == "ms-teams"@ && "ms-teams"@[0] == 'm' && "telegram"@[0] == 't');
            } else if i == 4 {
                assert(t[4].0 == "slack"@ && "slack"@.len() == 5 && "telegram"@.len() == 8);
            } else if i == 5 {
                assert(t[5].0 == "chrome"@ && "chrome"@.len() == 6 && "telegram"@.len() == 8);
            } else if i == 6 {
                assert(t[6].0 == "msedge"@ && "msedge"@.len() == 6 && "telegram"@.len() == 8);
            } else if i == 7 {
                assert(t[7].0 == "firefox"@ && "firefox"@.len() == 7 && "telegram"@.len() == 8);
            } else if i == 8 {
                assert(t[8].0 == "spotify"@ && "spotify"@.len() == 7 && "telegram"@.len() == 8);
            } else if i == 9 {
                assert(t[9].0 == "discord"@ && "discord"@.len() == 7 && "telegram"@.len() == 8);
            } else if i == 10 {
                assert(t[10].0 == "skype"@ && "skype"@.len() == 5 && "telegram"@.len() == 8);
            } else if i == 11 {
                assert(t[11].0 == "webex"@ && "webex"@.len() == 5 && "telegram"@.len() == 8);
            } else if i == 12 {
                assert(t[12].0 == "atmgr"@ && "atmgr"@.len() == 5 && "telegram"@.len() == 8);
            }
        }
        lemma_table_lookup_at(t, "telegram"@, 13);
    }
    if without_exe(lower) == "whatsapp"@ {
        assert(t[14] == ("whatsapp"@, "WhatsApp"@));
        assert forall|i: int| 0 <= i < 14 implies #[trigger] t[i].0 != "whatsapp"@ by {
            if i == 0 {
                assert(t[0].0 == "zoom"@ && "zoom"@.len() == 4 && "whatsapp"@.len() == 8);
            } else if i == 1 {
                assert(t[1].0 == "zoomworkplace"@ && "zoomworkplace"@.len() == 13 && "whatsapp"@.len() == 8);
            } else if i == 2 {
                assert(t[2].0 == "teams"@ && "teams"@.len() == 5 && "whatsapp"@.len() == 8);
            } else if i == 3 {
                assert(t[3].0 == "ms-teams"@ && "ms-teams"@[0] == 'm' && "whatsapp"@[0] == 'w');
            } else if i == 4 {
                assert(t[4].0 == "slack"@ && "slack"@.len() == 5 && "whatsapp"@.len() == 8);
            } else if i == 5 {
                assert(t[5].0 == "chrome"@ && "chrome"@.len() == 6 && "whatsapp"@.len() == 8);
            } else if i == 6 {
                assert(t[6].0 == "msedge"@ && "msedge"@.len() == 6 && "whatsapp"@.len() == 8);
            } else if i == 7 {
                assert(t[7].0 == "firefox"@ && "firefox"@.len() == 7 && "whatsapp"@.len() == 8);
            } else if i == 8 {
                assert(t[8].0 == "spotify"@ && "spotify"@.len() == 7 && "whatsapp"@.len() == 8);
            } else if i == 9 {
                assert(t[9].0 == "discord"@ && "discord"@.len() == 7 && "whatsapp"@.len() == 8);
            } else if i == 10 {
                assert(t[10].0 == "skype"@ && "skype"@.len() == 5 && "whatsapp"@.len() == 8);
            } else if i == 11 {
                assert(t[11].0 == "webex"@ && "webex"@.len() == 5 && "whatsapp"@.len() == 8);
            } else if i == 12 {
                assert(t[12].0 == "atmgr"@ && "atmgr"@.len() == 5 && "whatsapp"@.len() == 8);
            } else if i == 13 {
                assert(t[13].0 == "telegram"@ && "telegram"@[0] == 't' && "whatsapp"@[0] == 'w');
            }
        }
        lemma_table_lookup_at(t, "whatsapp"@, 14);
    }
    if without_exe(lower) == "vlc"@ {
        assert(t[15] == ("vlc"@, "VLC Media Player"@));
        assert forall|i: int| 0 <= i < 15 implies #[trigger] t[i].0 != "vlc"@ by {
            if i == 0 {
                assert(t[0].0 == "zoom"@ && "zoom"@.len() == 4 && "vlc"@.len() == 3);
            } else if i == 1 {
                assert(t[1].0 == "zoomworkplace"@ && "zoomworkplace"@.len() == 13 && "vlc"@.len() == 3);
            } else if i == 2 {
                assert(t[2].0 == "teams"@ && "teams"@.len() == 5 && "vlc"@.len() == 3);
            } else if i == 3 {
                assert(t[3].0 == "ms-teams"@ && "ms-teams"@.len() == 8 && "vlc"@.len() == 3);
            } else if i == 4 {
                assert(t[4].0 == "slack"@ && "slack"@.len() == 5 && "vlc"@.len() == 3);
            } else if i == 5 {
                assert(t[5].0 == "chrome"@ && "chrome"@.len() == 6 && "vlc"@.len() == 3);
            } else if i == 6 {
                assert(t[6].0 == "msedge"@ && "msedge"@.len() == 6 && "vlc"@.len() == 3);
            } else if i == 7 {
                assert(t[7].0 == "firefox"@ && "firefox"@.len() == 7 && "vlc"@.len() == 3);
            } else if i == 8 {
                assert(t[8].0 == "spotify"@ && "spotify"@.len() == 7 && "vlc"@.len() == 3);
            } else if i == 9 {
                assert(t[9].0 == "discord"@ && "discord"@.len() == 7 && "vlc"@.len() == 3);
            } else if i == 10 {
                assert(t[10].0 == "skype"@ && "skype"@.len() == 5 && "vlc"@.len() == 3);
            } else if i == 11 {
                assert(t[11].0 == "webex"@ && "webex"@.len() == 5 && "vlc"@.len() == 3);
            } else if i == 12 {
                assert(t[12].0 == "atmgr"@ && "atmgr"@.len() == 5 && "vlc"@.len() == 3);
            } else if i == 13 {
                assert(t[13].0 == "telegram"@ && "telegram"@.len() == 8 && "vlc"@.len() == 3);
            } else if i == 14 {
                assert(t[14].0 == "whatsapp"@ && "whatsapp"@.len() == 8 && "vlc"@.len() == 3);
            }
        }
        lemma_table_lookup_at(t, "vlc"@, 15);
    }
    if without_exe(lower) == "code"@ {
        assert(t[16] == ("code"@, "Visual Studio Code"@));
        assert forall|i: int| 0 <= i < 16 implies #[trigger] t[i].0 != "code"@ by {
            if i == 0 {
                assert(t[0].0 == "zoom"@ && "zoom"@[0] == 'z' && "code"@[0] == 'c');
            } else if i == 1 {
                assert(t[1].0 == "zoomworkplace"@ && "zoomworkplace"@.len() == 13 && "code"@.len() == 4);
            } else if i == 2 {
                assert(t[2].0 == "teams"@ && "teams"@.len() == 5 && "code"@.len() == 4);
            } else if i == 3 {
                assert(t[3].0 == "ms-teams"@ && "ms-teams"@.len() == 8 && "code"@.len() == 4);
            } else if i == 4 {
                assert(t[4].0 == "slack"@ && "slack"@.len() == 5 && "code"@.len() == 4);
            } else if i == 5 {
                assert(t[5].0 == "chrome"@ && "chrome"@.len() == 6 && "code"@.len() == 4);
            } else if i == 6 {
                assert(t[6].0 == "msedge"@ && "msedge"@.len() == 6 && "code"@.len() == 4);
            } else if i == 7 {
                assert(t[7].0 == "firefox"@ && "firefox"@.len() == 7 && "code"@.len() == 4);
            } else if i == 8 {
                assert(t[8].0 == "spotify"@ && "spotify"@.len() == 7 && "code"@.len() == 4);
            } else if i == 9 {
                assert(t[9].0 == "discord"@ && "discord"@.len() == 7 && "code"@.len() == 4);
            } else if i == 10 {
                assert(t[10].0 == "skype"@ && "skype"@.len() == 5 && "code"@.len() == 4);
            } else if i == 11 {
                assert(t[11].0 == "webex"@ && "webex"@.len() == 5 && "code"@.len() == 4);
            } else if i == 12 {
                assert(t[12].0 == "atmgr"@ && "atmgr"@.len() == 5 && "code"@.len() == 4);
            } else if i == 13 {
                assert(t[13].0 == "telegram"@ && "telegram"@.len() == 8 && "code"@.len() == 4);
            } else if i == 14 {
                assert(t[14].0 == "whatsapp"@ && "whatsapp"@.len() == 8 && "code"@.len() == 4);
            } else if i == 15 {
                assert(t[15].0 == "vlc"@ && "vlc"@.len() == 3 && "code"@.len() == 4);
            }
        }
        lemma_table_lookup_at(t, "code"@, 16);
    }
    if without_exe(lower) == "devenv"@ {
        assert(t[17] == ("devenv"@, "Visual Studio"@));
        assert forall|i: int| 0 <= i < 17 implies #[trigger] t[i].0 != "devenv"@ by {
            if i == 0 {
                assert(t[0].0 == "zoom"@ && "zoom"@.len() == 4 && "devenv"@.len() == 6);
            } else if i == 1 {
                assert(t[1].0 == "zoomworkplace"@ && "zoomworkplace"@.len() == 13 && "devenv"@.len() == 6);
            } else if i == 2 {
                assert(t[2].0 == "teams"@ && "teams"@.len() == 5 && "devenv"@.len() == 6);
            } else if i == 3 {
                assert(t[3].0 == "ms-teams"@ && "ms-teams"@.len() == 8 && "devenv"@.len() == 6);
            } else if i == 4 {
                assert(t[4].0 == "slack"@ && "slack"@.len() == 5 && "devenv"@.len() == 6);
            } else if i == 5 {
                assert(t[5].0 == "chrome"@ && "chrome"@[0] == 'c' && "devenv"@[0] == 'd');
            } else if i == 6 {
                assert(t[6].0 == "msedge"@ && "msedge"@[0] == 'm' && "devenv"@[0] == 'd');
            } else if i == 7 {
                assert(t[7].0 == "firefox"@ && "firefox"@.len() == 7 && "devenv"@.len() == 6);
            } else if i == 8 {
                assert(t[8].0 == "spotify"@ && "spotify"@.len() == 7 && "devenv"@.len() == 6);
            } else if i == 9 {
                assert(t[9].0 == "discord"@ && "discord"@.len() == 7 && "devenv"@.len() == 6);
            } else if i == 10 {
                assert(t[10].0 == "skype"@ && "skype"@.len() == 5 && "devenv"@.len() == 6);
            } else if i == 11 {
                assert(t[11].0 == "webex"@ && "webex"@.len() == 5 && "devenv"@.len() == 6);
            } else if i == 12 {
                assert(t[12].0 == "atmgr"@ && "atmgr"@.len() == 5 && "devenv"@.len() == 6);
            } else if i == 13 {
                assert(t[13].0 == "telegram"@ && "telegram"@.len() == 8 && "devenv"@.len() == 6);
            } else if i == 14 {
                assert(t[14].0 == "whatsapp"@ && "whatsapp"@.len() == 8 && "devenv"@.len() == 6);
            } else if i == 15 {
                assert(t[15].0 == "vlc"@ && "vlc"@.len() == 3 && "devenv"@.len() == 6);
            } else if i == 16 {
                assert(t[16].0 == "code"@ && "code"@.len() == 4 && "devenv"@.len() == 6);
            }
        }
        lemma_table_lookup_at(t, "devenv"@, 17);
    }
    if without_exe(lower) == "obs64"@ {
        assert(t[18] == ("obs64"@, "OBS Studio"@));
        assert forall|i: int| 0 <= i < 18 implies #[trigger] t[i].0 != "obs64"@ by {
            if i == 0 {
                assert(t[0].0 == "zoom"@ && "zoom"@.len() == 4 && "obs64"@.len() == 5);
            } else if i == 1 {
                assert(t[1].0 == "zoomworkplace"@ && "zoomworkplace"@.len() == 13 && "obs64"@.len() == 5);
            } else if i == 2 {
                assert(t[2].0 == "teams"@ && "teams"@[0] == 't' && "obs64"@[0] == 'o');
            } else if i == 3 {
                assert(t[3].0 == "ms-teams"@ && "ms-teams"@.len() == 8 && "obs64"@.len() == 5);
            } else if i == 4 {
                assert(t[4].0 == "slack"@ && "slack"@[0] == 's' && "obs64"@[0] == 'o');
            } else if i == 5 {
                assert(t[5].0 == "chrome"@ && "chrome"@.len() == 6 && "obs64"@.len() == 5);
            } else if i == 6 {
                assert(t[6].0 == "msedge"@ && "msedge"@.len() == 6 && "obs64"@.len() == 5);
            } else if i == 7 {
                assert(t[7].0 == "firefox"@ && "firefox"@.len() == 7 && "obs64"@.len() == 5);
            } else if i == 8 {
                assert(t[8].0 == "spotify"@ && "spotify"@.len() == 7 && "obs64"@.len() == 5);
            } else if i == 9 {
                assert(t[9].0 == "discord"@ && "discord"@.len() == 7 && "obs64"@.len() == 5);
            } else if i == 10 {
                assert(t[10].0 == "skype"@ && "skype"@[0] == 's' && "obs64"@[0] == 'o');
            } else if i == 11 {
                assert(t[11].0 == "webex"@ && "webex"@[0] == 'w' && "obs64"@[0] == 'o');
            } else if i == 12 {
                assert(t[12].0 == "atmgr"@ && "atmgr"@[0] == 'a' && "obs64"@[0] == 'o');
            } else if i == 13 {
                assert(t[13].0 == "telegram"@ && "telegram"@.len() == 8 && "obs64"@.len() == 5);
            } else if i == 14 {
                assert(t[14].0 == "whatsapp"@ && "whatsapp"@.len() == 8 && "obs64"@.len() == 5);
            } else if i == 15 {
                assert(t[15].0 == "vlc"@ && "vlc"@.len() == 3 && "obs64"@.len() == 5);
            } else if i == 16 {
                assert(t[16].0 == "code"@ && "code"@.len() == 4 && "obs64"@.len() == 5);
            } else if i == 17 {
                assert(t[17].0 == "devenv"@ && "devenv"@.len() == 6 && "obs64"@.len() == 5);
            }
        }
        lemma_table_lookup_at(t, "obs64"@, 18);
    }
    if without_exe(lower) == "obs32"@ {
        assert(t[19] == ("obs32"@, "OBS Studio"@));
        assert forall|i: int| 0 <= i < 19 implies #[trigger] t[i].0 != "obs32"@ by {
            if i == 0 {
                assert(t[0].0 == "zoom"@ && "zoom"@.len() == 4 && "obs32"@.len() == 5);
            } else if i == 1 {
                assert(t[1].0 == "zoomworkplace"@ && "zoomworkplace"@.len() == 13 && "obs32"@.len() == 5);
            } else if i == 2 {
                assert(t[2].0 == "teams"@ && "teams"@[0] == 't' && "obs32"@[0] == 'o');
            } else if i == 3 {
                assert(t[3].0 == "ms-teams"@ && "ms-teams"@.len() == 8 && "obs32"@.len() == 5);
            } else if i == 4 {
                assert(t[4].0 == "slack"@ && "slack"@[0] == 's' && "obs32"@[0] == 'o');
            } else if i == 5 {
                assert(t[5].0 == "chrome"@ && "chrome"@.len() == 6 && "obs32"@.len() == 5);
            } else if i == 6 {
                assert(t[6].0 == "msedge"@ && "msedge"@.len() == 6 && "obs32"@.len() == 5);
            } else if i == 7 {
                assert(t[7].0 == "firefox"@ && "firefox"@.len() == 7 && "obs32"@.len() == 5);
            } else if i == 8 {
                assert(t[8].0 == "spotify"@ && "spotify"@.len() == 7 && "obs32"@.len() == 5);
            } else if i == 9 {
                assert(t[9].0 == "discord"@ && "discord"@.len() == 7 && "obs32"@.len() == 5);
            } else if i == 10 {
                assert(t[10].0 == "skype"@ && "skype"@[0] == 's' && "obs32"@[0] == 'o');
            } else if i == 11 {
                assert(t[11].0 == "webex"@ && "webex"@[0] == 'w' && "obs32"@[0] == 'o');
            } else if i == 12 {
                assert(t[12].0 == "atmgr"@ && "atmgr"@[0] == 'a' && "obs32"@[0] == 'o');
            } else if i == 13 {
                assert(t[13].0 == "telegram"@ && "telegram"@.len() == 8 && "obs32"@.len() == 5);
            } else if i == 14 {
                assert(t[14].0 == "whatsapp"@ && "whatsapp"@.len() == 8 && "obs32"@.len() == 5);
            } else if i == 15 {
                assert(t[15].0 == "vlc"@ && "vlc"@.len() == 3 && "obs32"@.len() == 5);
            } else if i == 16 {
                assert(t[16].0 == "code"@ && "code"@.len() == 4 && "obs32"@.len() == 5);
            } else if i == 17 {
                assert(t[17].0 == "devenv"@ && "devenv"@.len() == 6 && "obs32"@.len() == 5);
            } else if i == 18 {
                assert(t[18].0 == "obs64"@ && "obs64"@[3] == '6' && "obs32"@[3] == '3');
            }
        }
        lemma_table_lookup_at(t, "obs32"@, 19);
    }
    if without_exe(lower) == "obs"@ {
        assert(t[20] == ("obs"@, "OBS Studio"@));
        assert forall|i: int| 0 <= i < 20 implies #[trigger] t[i].0 != "obs"@ by {
            if i == 0 {
                assert(t[0].0 == "zoom"@ && "zoom"@.len() == 4 && "obs"@.len() == 3);
            } else if i == 1 {
                assert(t[1].0 == "zoomworkplace"@ && "zoomworkplace"@.len() == 13 && "obs"@.len() == 3);
            } else if i == 2 {
                assert(t[2].0 == "teams"@ && "teams"@.len() == 5 && "obs"@.len() == 3);
            } else if i == 3 {
                assert(t[3].0 == "ms-teams"@ && "ms-teams"@.len() == 8 && "obs"@.len() == 3);
            } else if i == 4 {
                assert(t[4].0 == "slack"@ && "slack"@.len() == 5 && "obs"@.len() == 3);
            } else if i == 5 {
                assert(t[5].0 == "chrome"@ && "chrome"@.len() == 6 && "obs"@.len() == 3);
            } else if i == 6 {
                assert(t[6].0 == "msedge"@ && "msedge"@.len() == 6 && "obs"@.len() == 3);
            } else if i == 7 {
                assert(t[7].0 == "firefox"@ && "firefox"@.len() == 7 && "obs"@.len() == 3);
            } else if i == 8 {
                assert(t[8].0 == "spotify"@ && "spotify"@.len() == 7 && "obs"@.len() == 3);
            } else if i == 9 {
                assert(t[9].0 == "discord"@ && "discord"@.len() == 7 && "obs"@.len() == 3);
            } else if i == 10 {
                assert(t[10].0 == "skype"@ && "skype"@.len() == 5 && "obs"@.len() == 3);
            } else if i == 11 {
                assert(t[11].0 == "webex"@ && "webex"@.len() == 5 && "obs"@.len() == 3);
            } else if i == 12 {
                assert(t[12].0 == "atmgr"@ && "atmgr"@.len() == 5 && "obs"@.len() == 3);
            } else if i == 13 {
                assert(t[13].0 == "telegram"@ && "telegram"@.len() == 8 && "obs"@.len() == 3);
            } else if i == 14 {
                assert(t[14].0 == "whatsapp"@ && "whatsapp"@.len() == 8 && "obs"@.len() == 3);
            } else if i == 15 {
                assert(t[15].0 == "vlc"@ && "vlc"@[0] == 'v' && "obs"@[0] == 'o');
            } else if i == 16 {
                assert(t[16].0 == "code"@ && "code"@.len() == 4 && "obs"@.len() == 3);
            } else if i == 17 {
                assert(t[17].0 == "devenv"@ && "devenv"@.len() == 6 && "obs"@.len() == 3);
            } else if i == 18 {
                assert(t[18].0 == "obs64"@ && "obs64"@.len() == 5 && "obs"@.len() == 3);
            } else if i == 19 {
                assert(t[19].0 == "obs32"@ && "obs32"@.len() == 5 && "obs"@.len() == 3);
            }
        }
        lemma_table_lookup_at(t, "obs"@, 20);
    }
    if without_exe(lower) == "safari"@ {
        assert(t[21] == ("safari"@, "Safari"@));
        assert forall|i: int| 0 <= i < 21 implies #[trigger] t[i].0 != "safari"@ by {
            if i == 0 {
                assert(t[0].0 == "zoom"@ && "zoom"@.len() == 4 && "safari"@.len() == 6);
            } else if i == 1 {
                assert(t[1].0 == "zoomworkplace"@ && "zoomworkplace"@.len() == 13 && "safari"@.len() == 6);
            } else if i == 2 {
                assert(t[2].0 == "teams"@ && "teams"@.len() == 5 && "safari"@.len() == 6);
            } else if i == 3 {
                assert(t[3].0 == "ms-teams"@ && "ms-teams"@.len() == 8 && "safari"@.len() == 6);
            } else if i == 4 {
                assert(t[4].0 == "slack"@ && "slack"@.len() == 5 && "safari"@.len() == 6);
            } else if i == 5 {
                assert(t[5].0 == "chrome"@ && "chrome"@[0] == 'c' && "safari"@[0] == 's');
            } else if i == 6 {
                assert(t[6].0 == "msedge"@ && "msedge"@[0] == 'm' && "safari"@[0] == 's');
            } else if i == 7 {
                assert(t[7].0 == "firefox"@ && "firefox"@.len() == 7 && "safari"@.len() == 6);
            } else if i == 8 {
                assert(t[8].0 == "spotify"@ && "spotify"@.len() == 7 && "safari"@.len() == 6);
            } else if i == 9 {
                assert(t[9].0 == "discord"@ && "discord"@.len() == 7 && "safari"@.len() == 6);
            } else if i == 10 {
                assert(t[10].0 == "skype"@ && "skype"@.len() == 5 && "safari"@.len() == 6);
            } else if i == 11 {
                assert(t[11].0 == "webex"@ && "webex"@.len() == 5 && "safari"@.len() == 6);
            } else if i == 12 {
                assert(t[12].0 == "atmgr"@ && "atmgr"@.len() == 5 && "safari"@.len() == 6);
            } else if i == 13 {
                assert(t[13].0 == "telegram"@ && "telegram"@.len() == 8 && "safari"@.len() == 6);
            } else if i == 14 {
                assert(t[14].0 == "whatsapp"@ && "whatsapp"@.len() == 8 && "safari"@.len() == 6);
            } else if i == 15 {
                assert(t[15].0 == "vlc"@ && "vlc"@.len() == 3 && "safari"@.len() == 6);
            } else if i == 16 {
                assert(t[16].0 == "code"@ && "code"@.len() == 4 && "safari"@.len() == 6);
            } else if i == 17 {
                assert(t[17].0 == "devenv"@ && "devenv"@[0] == 'd' && "safari"@[0] == 's');
            } else if i == 18 {
                assert(t[18].0 == "obs64"@ && "obs64"@.len() == 5 && "safari"@.len() == 6);
            } else if i == 19 {
                assert(t[19].0 == "obs32"@ && "obs32"@.len() == 5 && "safari"@.len() == 6);
            } else if i == 20 {
                assert(t[20].0 == "obs"@ && "obs"@.len() == 3 && "safari"@.len() == 6);
            }
        }
        lemma_table_lookup_at(t, "safari"@, 21);
    }
    if without_exe(lower) == "facetime"@ {
        assert(t[22] == ("facetime"@, "FaceTime"@));
        assert forall|i: int| 0 <= i < 22 implies #[trigger] t[i].0 != "facetime"@ by {
            if i == 0 {
                assert(t[0].0 == "zoom"@ && "zoom"@.len() == 4 && "facetime"@.len() == 8);
            } else if i == 1 {
                assert(t[1].0 == "zoomworkplace"@ && "zoomworkplace"@.len() == 13 && "facetime"@.len() == 8);
            } else if i == 2 {
                assert(t[2].0 == "teams"@ && "teams"@.len() == 5 && "facetime"@.len() == 8);
            } else if i == 3 {
                assert(t[3].0 == "ms-teams"@ && "ms-teams"@[0] == 'm' && "facetime"@[0] == 'f');
            } else if i == 4 {
                assert(t[4].0 == "slack"@ && "slack"@.len() == 5 && "facetime"@.len() == 8);
            } else if i == 5 {
                assert(t[5].0 == "chrome"@ && "chrome"@.len() == 6 && "facetime"@.len() == 8);
            } else if i == 6 {
                assert(t[6].0 == "msedge"@ && "msedge"@.len() == 6 && "facetime"@.len() == 8);
            } else if i == 7 {
                assert(t[7].0 == "firefox"@ && "firefox"@.len() == 7 && "facetime"@.len() == 8);
            } else if i == 8 {
                assert(t[8].0 == "spotify"@ && "spotify"@.len() == 7 && "facetime"@.len() == 8);
            } else if i == 9 {
                assert(t[9].0 == "discord"@ && "discord"@.len() == 7 && "facetime"@.len() == 8);
            } else if i == 10 {
                assert(t[10].0 == "skype"@ && "skype"@.len() == 5 && "facetime"@.len() == 8);
            } else if i == 11 {
                assert(t[11].0 == "webex"@ && "webex"@.len() == 5 && "facetime"@.len() == 8);
            } else if i == 12 {
                assert(t[12].0 == "atmgr"@ && "atmgr"@.len() == 5 && "facetime"@.len() == 8);
            } else if i == 13 {
                assert(t[13].0 == "telegram"@ && "telegram"@[0] == 't' && "facetime"@[0] == 'f');
            } else if i == 14 {
                assert(t[14].0 == "whatsapp"@ && "whatsapp"@[0] == 'w' && "facetime"@[0] == 'f');
            } else if i == 15 {
                assert(t[15].0 == "vlc"@ && "vlc"@.len() == 3 && "facetime"@.len() == 8);
            } else if i == 16 {
                assert(t[16].0 == "code"@ && "code"@.len() == 4 && "facetime"@.len() == 8);
            } else if i == 17 {
                assert(t[17].0 == "devenv"@ && "devenv"@.len() == 6 && "facetime"@.len() == 8);
            } else if i == 18 {
                assert(t[18].0 == "obs64"@ && "obs64"@.len() == 5 && "facetime"@.len() == 8);
            } else if i == 19 {
                assert(t[19].0 == "obs32"@ && "obs32"@.len() == 5 && "facetime"@.len() == 8);
            } else if i == 20 {
                assert(t[20].0 == "obs"@ && "obs"@.len() == 3 && "facetime"@.len() == 8);
            } else if i == 21 {
                assert(t[21].0 == "safari"@ && "safari"@.len() == 6 && "facetime"@.len() == 8);
            }
        }
        lemma_table_lookup_at(t, "facetime"@, 22);
    }
}

/// `lower` names the system process `name`: it is `name`, or `name` is what
/// it is without `.exe`.
pub open spec fn names_system_process(lower: Seq<char>, name: Seq<char>) -> bool {
    lower == name || without_exe(lower) == name
}

/// The system processes and this application's own processes are never
/// offered for recording: each of the lowercase names below, and each of
/// them with `.exe` added, is a system name. (For an ASCII executable name,
/// `is_system_process` lowercases its letters, so any ASCII case of these
/// names is a system process; see `lemma_ascii_lowercase_of_word`.)
pub proof fn lemma_known_system_names(lower: Seq<char>)
    ensures
        names_system_process(lower, "system"@) ==> is_system_name(lower),
        names_system_process(lower, "smss.exe"@) ==> is_system_name(lower),
        names_system_process(lower, "csrss.exe"@) ==> is_system_name(lower),
        names_system_process(lower, "wininit.exe"@) ==> is_system_name(lower),
        names_system_process(lower, "services.exe"@) ==> is_system_name(lower),
        names_system_process(lower, "lsass.exe"@) ==> is_system_name(lower),
        names_system_process(lower, "svchost.exe"@) ==> is_system_name(lower),
        names_system_process(lower, "fontdrvhost.exe"@) ==> is_system_name(lower),
        names_system_process(lower, "dwm.exe"@) ==> is_system_name(lower),
        names_system_process(lower, "sihost.exe"@) ==> is_system_name(lower),
        names_system_process(lower, "taskhostw.exe"@) ==> is_system_name(lower),
        names_system_process(lower, "searchhost.exe"@) ==> is_system_name(lower),
        names_system_process(lower, "runtimebroker.exe"@) ==> is_system_name(lower),
        names_system_process(lower, "startmenuexperiencehost.exe"@) ==> is_system_name(lower),
        names_system_process(lower, "shellexperiencehost.exe"@) ==> is_system_name(lower),
        names_system_process(lower, "lockapp.exe"@) ==> is_system_name(lower),
        names_system_process(lower, "ctfmon.exe"@) ==> is_system_name(lower),
        names_system_process(lower, "conhost.exe"@) ==> is_system_name(lower),
        names_system_process(lower, "wlanext.exe"@) ==> is_system_name(lower),
        names_system_process(lower, "spoolsv.exe"@) ==> is_system_name(lower),
        names_system_process(lower, "audiodg.exe"@) ==> is_system_name(lower),
        names_system_process(lower, "registry"@) ==> is_system_name(lower),
        names_system_process(lower, "memory compression"@) ==> is_system_name(lower),
        names_system_process(lower, "meetily.exe"@) ==> is_system_name(lower),
        names_system_process(lower, "meetily-cuda.exe"@) ==> is_system_name(lower),
        names_system_process(lower, "meetily-cpu.exe"@) ==> is_system_name(lower),
        names_system_process(lower, "meetily-vulkan.exe"@) ==> is_system_name(lower),
        names_system_process(lower, "llama-helper-x86_64-pc-windows-msvc.exe"@) ==> is_system_name(lower),
        names_system_process(lower, "ffmpeg-x86_64-pc-windows-msvc.exe"@) ==> is_system_name(lower),
        names_system_process(lower, "searchindexer.exe"@) ==> is_system_name(lower),
        names_system_process(lower, "securityhealthservice.exe"@) ==> is_system_name(lower),
        names_system_process(lower, "smartscreen.exe"@) ==> is_system_name(lower),
        names_system_process(lower, "launchd"@) ==> is_system_name(lower),
        names_system_process(lower, "kernel_task"@) ==> is_system_name(lower),
        names_system_process(lower, "windowserver"@) ==> is_system_name(lower),
        names_system_process(lower, "coreaudiod"@) ==> is_system_name(lower),
        names_system_process(lower, "distnoted"@) ==> is_system_name(lower),
        names_system_process(lower, "loginwindow"@) ==> is_system_name(lower),
        names_system_process(lower, "finder"@) ==> is_system_name(lower),
        names_system_process(lower, "dock"@) ==> is_system_name(lower),
        names_system_process(lower, "systemuiserver"@) ==> is_system_name(lower),
        names_system_process(lower, "controlcenter"@) ==> is_system_name(lower),
        names_system_process(lower, "notificationcenter"@) ==> is_system_name(lower),
        names_system_process(lower, "talagent"@) ==> is_system_name(lower),
        names_system_process(lower, "tccd"@) ==> is_system_name(lower),
        names_system_process(lower, "cfprefsd"@) ==> is_system_name(lower),
{
    let names = system_process_names();
    if names_system_process(lower, "system"@) {
        assert(names[0] == "system"@);
    }
    if names_system_process(lower, "smss.exe"@) {
        assert(names[1] == "smss.exe"@);
    }
    if names_system_process(lower, "csrss.exe"@) {
        assert(names[2] == "csrss.exe"@);
    }
    if names_system_process(lower, "wininit.exe"@) {
        assert(names[3] == "wininit.exe"@);
    }
    if names_system_process(lower, "services.exe"@) {
        assert(names[4] == "services.exe"@);
    }
    if names_system_process(lower, "lsass.exe"@) {
        assert(names[5] == "lsass.exe"@);
    }
    if names_system_process(lower, "svchost.exe"@) {
        assert(names[6] == "svchost.exe"@);
    }
    if names_system_process(lower, "fontdrvhost.exe"@) {
        assert(names[7] == "fontdrvhost.exe"@);
    }
    if names_system_process(lower, "dwm.exe"@) {
        assert(names[8] == "dwm.exe"@);
    }
    if names_system_process(lower, "sihost.exe"@) {
        assert(names[9] == "sihost.exe"@);
    }
    if names_system_process(lower, "taskhostw.exe"@) {
        assert(names[10] == "taskhostw.exe"@);
    }
    if names_system_process(lower, "searchhost.exe"@) {
        assert(names[11] == "searchhost.exe"@);
    }
    if names_system_process(lower, "runtimebroker.exe"@) {
        assert(names[12] == "runtimebroker.exe"@);
    }
    if names_system_process(lower, "startmenuexperiencehost.exe"@) {
        assert(names[13] == "startmenuexperiencehost.exe"@);
    }
    if names_system_process(lower, "shellexperiencehost.exe"@) {
        assert(names[14] == "shellexperiencehost.exe"@);
    }
    if names_system_process(lower, "lockapp.exe"@) {
        assert(names[15] == "lockapp.exe"@);
    }
    if names_system_process(lower, "ctfmon.exe"@) {
        assert(names[16] == "ctfmon.exe"@);
    }
    if names_system_process(lower, "conhost.exe"@) {
        assert(names[17] == "conhost.exe"@);
    }
    if names_system_process(lower, "wlanext.exe"@) {
        assert(names[18] == "wlanext.exe"@);
    }
    if names_system_process(lower, "spoolsv.exe"@) {
        assert(names[19] == "spoolsv.exe"@);
    }
    if names_system_process(lower, "audiodg.exe"@) {
        assert(names[20] == "audiodg.exe"@);
    }
    if names_system_process(lower, "registry"@) {
        assert(names[21] == "registry"@);
    }
    if names_system_process(lower, "memory compression"@) {
        assert(names[22] == "memory compression"@);
    }
    if names_system_process(lower, "meetily.exe"@) {
        assert(names[23] == "meetily.exe"@);
    }
    if names_system_process(lower, "meetily-cuda.exe"@) {
        assert(names[24] == "meetily-cuda.exe"@);
    }
    if names_system_process(lower, "meetily-cpu.exe"@) {
        assert(names[25] == "meetily-cpu.exe"@);
    }
    if names_system_process(lower, "meetily-vulkan.exe"@) {
        assert(names[26] == "meetily-vulkan.exe"@);
    }
    if names_system_process(lower, "llama-helper-x86_64-pc-windows-msvc.exe"@) {
        assert(names[27] == "llama-helper-x86_64-pc-windows-msvc.exe"@);
    }
    if names_system_process(lower, "ffmpeg-x86_64-pc-windows-msvc.exe"@) {
        assert(names[28] == "ffmpeg-x86_64-pc-windows-msvc.exe"@);
    }
    if names_system_process(lower, "searchindexer.exe"@) {
        assert(names[29] == "searchindexer.exe"@);
    }
    if names_system_process(lower, "securityhealthservice.exe"@) {
        assert(names[30] == "securityhealthservice.exe"@);
    }
    if names_system_process(lower, "smartscreen.exe"@) {
        assert(names[31] == "smartscreen.exe"@);
    }
    if names_system_process(lower, "launchd"@) {
        assert(names[32] == "launchd"@);
    }
    if names_system_process(lower, "kernel_task"@) {
        assert(names[33] == "kernel_task"@);
    }
    if names_system_process(lower, "windowserver"@) {
        assert(names[34] == "windowserver"@);
    }
    if names_system_process(lower, "coreaudiod"@) {
        assert(names[35] == "coreaudiod"@);
    }
    if names_system_process(lower, "distnoted"@) {
        assert(names[36] == "distnoted"@);
    }
    if names_system_process(lower, "loginwindow"@) {
        assert(names[37] == "loginwindow"@);
    }
    if names_system_process(lower, "finder"@) {
        assert(names[38] == "finder"@);
    }
    if names_system_process(lower, "dock"@) {
        assert(names[39] == "dock"@);
    }
    if names_system_process(lower, "systemuiserver"@) {
        assert(names[40] == "systemuiserver"@);
    }
    if names_system_process(lower, "controlcenter"@) {
        assert(names[41] == "controlcenter"@);
    }
    if names_system_process(lower, "notificationcenter"@) {
        assert(names[42] == "notificationcenter"@);
    }
    if names_system_process(lower, "talagent"@) {
        assert(names[43] == "talagent"@);
    }
    if names_system_process(lower, "tccd"@) {
        assert(names[44] == "tccd"@);
    }
    if names_system_process(lower, "cfprefsd"@) {
        assert(names[45] == "cfprefsd"@);
    }
}

proof fn lemma_table_lookup_absent(table: Seq<(Seq<char>, Seq<char>)>, key: Seq<char>)
    requires
        forall|i: int| 0 <= i < table.len() ==> #[trigger] table[i].0 != key,
    ensures
        table_lookup(table, key) is None,
    decreases table.len(),
{
    if table.len() > 0 {
        let t = table.drop_first();
        assert forall|i: int| 0 <= i < t.len() implies #[trigger] t[i].0 != key by {
            assert(t[i] == table[i + 1]);
        }
        assert(table[0].0 != key);
        lemma_table_lookup_absent(t, key);
    }
}

/// Every other executable is shown by its lowercase name without `.exe`, with
/// the first character uppercased (`myapp.exe` is shown as `Myapp`); an
/// executable whose lowercase name without `.exe` is empty is shown by its own
/// name.
pub proof fn lemma_other_friendly_names(exe_name: Seq<char>, lower: Seq<char>)
    requires
        without_exe(lower) != "zoom"@,
        without_exe(lower) != "zoomworkplace"@,
        without_exe(lower) != "teams"@,
        without_exe(lower) != "ms-teams"@,
        without_exe(lower) != "slack"@,
        without_exe(lower) != "chrome"@,
        without_exe(lower) != "msedge"@,
        without_exe(lower) != "firefox"@,
        without_exe(lower) != "spotify"@,
        without_exe(lower) != "discord"@,
        without_exe(lower) != "skype"@,
        without_exe(lower) != "webex"@,
        without_exe(lower) != "atmgr"@,
        without_exe(lower) != "telegram"@,
        without_exe(lower) != "whatsapp"@,
        without_exe(lower) != "vlc"@,
        without_exe(lower) != "code"@,
        without_exe(lower) != "devenv"@,
        without_exe(lower) != "obs64"@,
        without_exe(lower) != "obs32"@,
        without_exe(lower) != "obs"@,
        without_exe(lower) != "safari"@,
        without_exe(lower) != "facetime"@,
    ensures
        friendly_name_for(exe_name, lower) == (if without_exe(lower).len() == 0 {
            exe_name
        } else {
            spec_char_to_uppercase(without_exe(lower)[0]) + without_exe(lower).drop_first()
        }),
{
    let t = friendly_name_table();
    let key = without_exe(lower);
    assert forall|i: int| 0 <= i < t.len() implies #[trigger] t[i].0 != key by {
        if i == 0 {
            assert(t[0].0 == "zoom"@);
        } else if i == 1 {
            assert(t[1].0 == "zoomworkplace"@);
        } else if i == 2 {
            assert(t[2].0 == "teams"@);
        } else if i == 3 {
            assert(t[3].0 == "ms-teams"@);
        } else if i == 4 {
            assert(t[4].0 == "slack"@);
        } else if i == 5 {
            assert(t[5].0 == "chrome"@);
        } else if i == 6 {
            assert(t[6].0 == "msedge"@);
        } else if i == 7 {
            assert(t[7].0 == "firefox"@);
        } else if i == 8 {
            assert(t[8].0 == "spotify"@);
        } else if i == 9 {
            assert(t[9].0 == "discord"@);
        } else if i == 10 {
            assert(t[10].0 == "skype"@);
        } else if i == 11 {
            assert(t[11].0 == "webex"@);
        } else if i == 12 {
            assert(t[12].0 == "atmgr"@);
        } else if i == 13 {
            assert(t[13].0 == "telegram"@);
        } else if i == 14 {
            assert(t[14].0 == "whatsapp"@);
        } else if i == 15 {
            assert(t[15].0 == "vlc"@);
        } else if i == 16 {
            assert(t[16].0 == "code"@);
        } else if i == 17 {
            assert(t[17].0 == "devenv"@);
        } else if i == 18 {
            assert(t[18].0 == "obs64"@);
        } else if i == 19 {
            assert(t[19].0 == "obs32"@);
        } else if i == 20 {
            assert(t[20].0 == "obs"@);
        } else if i == 21 {
            assert(t[21].0 == "safari"@);
        } else if i == 22 {
            assert(t[22].0 == "facetime"@);
        }
    }
    lemma_table_lookup_absent(t, key);
}

/// Only the names above are system names: a name that is a system name is
/// one of them, or one of them with `.exe` added.
pub proof fn lemma_only_known_system_names(lower: Seq<char>)
    requires
        is_system_name(lower),
    ensures
        names_system_process(lower, "system"@)
            || names_system_process(lower, "smss.exe"@)
            || names_system_process(lower, "csrss.exe"@)
            || names_system_process(lower, "wininit.exe"@)
            || names_system_process(lower, "services.exe"@)
            || names_system_process(lower, "lsass.exe"@)
            || names_system_process(lower, "svchost.exe"@)
            || names_system_process(lower, "fontdrvhost.exe"@)
            || names_system_process(lower, "dwm.exe"@)
            || names_system_process(lower, "sihost.exe"@)
            || names_system_process(lower, "taskhostw.exe"@)
            || names_system_process(lower, "searchhost.exe"@)
            || names_system_process(lower, "runtimebroker.exe"@)
            || names_system_process(lower, "startmenuexperiencehost.exe"@)
            || names_system_process(lower, "shellexperiencehost.exe"@)
            || names_system_process(lower, "lockapp.exe"@)
            || names_system_process(lower, "ctfmon.exe"@)
            || names_system_process(lower, "conhost.exe"@)
            || names_system_process(lower, "wlanext.exe"@)
            || names_system_process(lower, "spoolsv.exe"@)
            || names_system_process(lower, "audiodg.exe"@)
            || names_system_process(lower, "registry"@)
            || names_system_process(lower, "memory compression"@)
            || names_system_process(lower, "meetily.exe"@)
            || names_system_process(lower, "meetily-cuda.exe"@)
            || names_system_process(lower, "meetily-cpu.exe"@)
            || names_system_process(lower, "meetily-vulkan.exe"@)
            || names_system_process(lower, "llama-helper-x86_64-pc-windows-msvc.exe"@)
            || names_system_process(lower, "ffmpeg-x86_64-pc-windows-msvc.exe"@)
            || names_system_process(lower, "searchindexer.exe"@)
            || names_system_process(lower, "securityhealthservice.exe"@)
            || names_system_process(lower, "smartscreen.exe"@)
            || names_system_process(lower, "launchd"@)
            || names_system_process(lower, "kernel_task"@)
            || names_system_process(lower, "windowserver"@)
            || names_system_process(lower, "coreaudiod"@)
            || names_system_process(lower, "distnoted"@)
            || names_system_process(lower, "loginwindow"@)
            || names_system_process(lower, "finder"@)
            || names_system_process(lower, "dock"@)
            || names_system_process(lower, "systemuiserver"@)
            || names_system_process(lower, "controlcenter"@)
            || names_system_process(lower, "notificationcenter"@)
            || names_system_process(lower, "talagent"@)
            || names_system_process(lower, "tccd"@)
            || names_system_process(lower, "cfprefsd"@),
{
    let names = system_process_names();
    let k = choose|k: int|
        0 <= k < names.len() && (lower == #[trigger] names[k] || without_exe(lower) == names[k]);
    if k == 0 {
        assert(names[0] == "system"@);
    } else if k == 1 {
        assert(names[1] == "smss.exe"@);
    } else if k == 2 {
        assert(names[2] == "csrss.exe"@);
    } else if k == 3 {
        assert(names[3] == "wininit.exe"@);
    } else if k == 4 {
        assert(names[4] == "services.exe"@);
    } else if k == 5 {
        assert(names[5] == "lsass.exe"@);
    } else if k == 6 {
        assert(names[6] == "svchost.exe"@);
    } else if k == 7 {
        assert(names[7] == "fontdrvhost.exe"@);
    } else if k == 8 {
        assert(names[8] == "dwm.exe"@);
    } else if k == 9 {
        assert(names[9] == "sihost.exe"@);
    } else if k == 10 {
        assert(names[10] == "taskhostw.exe"@);
    } else if k == 11 {
        assert(names[11] == "searchhost.exe"@);
    } else if k == 12 {
        assert(names[12] == "runtimebroker.exe"@);
    } else if k == 13 {
        assert(names[13] == "startmenuexperiencehost.exe"@);
    } else if k == 14 {
        assert(names[14] == "shellexperiencehost.exe"@);
    } else if k == 15 {
        assert(names[15] == "lockapp.exe"@);
    } else if k == 16 {
        assert(names[16] == "ctfmon.exe"@);
    } else if k == 17 {
        assert(names[17] == "conhost.exe"@);
    } else if k == 18 {
        assert(names[18] == "wlanext.exe"@);
    } else if k == 19 {
        assert(names[19] == "spoolsv.exe"@);
    } else if k == 20 {
        assert(names[20] == "audiodg.exe"@);
    } else if k == 21 {
        assert(names[21] == "registry"@);
    } else if k == 22 {
        assert(names[22] == "memory compression"@);
    } else if k == 23 {
        assert(names[23] == "meetily.exe"@);
    } else if k == 24 {
        assert(names[24] == "meetily-cuda.exe"@);
    } else if k == 25 {
        assert(names[25] == "meetily-cpu.exe"@);
    } else if k == 26 {
        assert(names[26] == "meetily-vulkan.exe"@);
    } else if k == 27 {
        assert(names[27] == "llama-helper-x86_64-pc-windows-msvc.exe"@);
    } else if k == 28 {
        assert(names[28] == "ffmpeg-x86_64-pc-windows-msvc.exe"@);
    } else if k == 29 {
        assert(names[29] == "searchindexer.exe"@);
    } else if k == 30 {
        assert(names[30] == "securityhealthservice.exe"@);
    } else if k == 31 {
        assert(names[31] == "smartscreen.exe"@);
    } else if k == 32 {
        assert(names[32] == "launchd"@);
    } else if k == 33 {
        assert(names[33] == "kernel_task"@);
    } else if k == 34 {
        assert(names[34] == "windowserver"@);
    } else if k == 35 {
        assert(names[35] == "coreaudiod"@);
    } else if k == 36 {
        assert(names[36] == "distnoted"@);
    } else if k == 37 {
        assert(names[37] == "loginwindow"@);
    } else if k == 38 {
        assert(names[38] == "finder"@);
    } else if k == 39 {
        assert(names[39] == "dock"@);
    } else if k == 40 {
        assert(names[40] == "systemuiserver"@);
    } else if k == 41 {
        assert(names[41] == "controlcenter"@);
    } else if k == 42 {
        assert(names[42] == "notificationcenter"@);
    } else if k == 43 {
        assert(names[43] == "talagent"@);
    } else if k == 44 {
        assert(names[44] == "tccd"@);
    } else if k == 45 {
        assert(names[45] == "cfprefsd"@);
    }
}

/// A process as the process table lists it: its id, executable name, the file
/// name of its executable path (where known) and its parent's id (where known).
#[derive(Debug, Clone)]
pub struct RunningProcess {
    pub pid: u32,
    pub name: String,
    pub exe_file_name: Option<String>,
    pub parent_pid: Option<u32>,
}

/// A recordable application, with its strings as character sequences.
pub struct RecordableAppView {
    pub id: Seq<char>,
    pub name: Seq<char>,
    pub executable: Seq<char>,
    pub pid: Option<u32>,
    pub has_audio: bool,
    pub icon: Option<Seq<char>>,
}

impl View for RecordableApp {
    type V = RecordableAppView;

    open spec fn view(&self) -> RecordableAppView {
        RecordableAppView {
            id: self.id@,
            name: self.name@,
            executable: self.executable@,
            pid: self.pid,
            has_audio: self.has_audio,
            icon: match self.icon {
                Some(s) => Some(s@),
                None => None,
            },
        }
    }
}

/// The views of a sequence of applications.
pub open spec fn app_views(apps: Seq<RecordableApp>) -> Seq<RecordableAppView> {
    apps.map_values(|a: RecordableApp| a@)
}

/// The strings are equal up to ASCII case.
pub open spec fn eq_ignore_ascii_case(a: Seq<char>, b: Seq<char>) -> bool {
    &&& a.len() == b.len()
    &&& forall|i: int| 0 <= i < a.len() ==> ascii_folded(#[trigger] a[i]) == ascii_folded(b[i])
}

/// A name that equals a lowercase ASCII word up to ASCII case has that word
/// as its ASCII lowercase form: lowercasing `MSEDGE.EXE` gives `msedge.exe`.
pub proof fn lemma_ascii_lowercase_of_word(name: Seq<char>, lower: Seq<char>, word: Seq<char>)
    requires
        is_ascii_lowercase_of(lower, name),
        eq_ignore_ascii_case(name, word),
        is_lowercase_ascii(word),
    ensures
        lower == word,
{
    assert forall|i: int| 0 <= i < lower.len() implies lower[i] == word[i] by {
        assert(lower[i] as int == ascii_folded(name[i]) as int);
        assert(ascii_folded(name[i]) == ascii_folded(word[i]));
        assert(ascii_folded(word[i]) as int == word[i] as int);
        assert(lower[i] as int == word[i] as int);
    }
    assert(lower =~= word);
}

/// Whether two strings are equal up to ASCII case.
fn same_ignoring_ascii_case(a: &str, b: &str) -> (same: bool)
    ensures
        same == eq_ignore_ascii_case(a@, b@),
{
    let n = a.unicode_len();
    if n != b.unicode_len() {
        return false;
    }
    let mut i: usize = 0;
    while i < n
        invariant
            n == a@.len() == b@.len(),
            i <= n,
            forall|k: int| 0 <= k < i ==> ascii_folded(#[trigger] a@[k]) == ascii_folded(b@[k]),
        decreases n - i,
    {
        let x = a.get_char(i) as u32;
        let y = b.get_char(i) as u32;
        let fx = if 65 <= x && x <= 90 {
            x + 32
        } else {
            x
        };
        let fy = if 65 <= y && y <= 90 {
            y + 32
        } else {
            y
        };
        if fx != fy {
            return false;
        }
        i = i + 1;
    }
    true
}

/// The first application from index `k` on whose executable equals `exe` up
/// to ASCII case.
pub open spec fn find_executable_from(apps: Seq<RecordableAppView>, exe: Seq<char>, k: int) -> Option<
    int,
>
    decreases apps.len() - k,
{
    if k < 0 || k >= apps.len() {
        None
    } else if eq_ignore_ascii_case(apps[k].executable, exe) {
        Some(k)
    } else {
        find_executable_from(apps, exe, k + 1)
    }
}

proof fn lemma_find_executable(apps: Seq<RecordableAppView>, exe: Seq<char>, k: int, k0: int)
    requires
        0 <= k,
    ensures
        find_executable_from(apps, exe, k) matches Some(j) ==> k <= j < apps.len()
            && eq_ignore_ascii_case(apps[j].executable, exe),
        k <= k0 < apps.len() && eq_ignore_ascii_case(apps[k0].executable, exe)
            ==> find_executable_from(apps, exe, k) is Some,
    decreases apps.len() - k,
{
    if k < apps.len() && !eq_ignore_ascii_case(apps[k].executable, exe) {
        lemma_find_executable(apps, exe, k + 1, k0);
    }
}

/// A process with the strings its listing depends on: its executable name,
/// that name in lowercase, whether it is a system process, its display name
/// and that display name in lowercase (by which the list is sorted).
#[derive(Debug, Clone)]
pub struct ProcessListing {
    pub pid: u32,
    pub name: String,
    pub name_lower: String,
    pub system: bool,
    pub display_name: String,
    pub display_key: String,
}

/// A process listing, with its strings as character sequences.
pub struct ProcessListingView {
    pub pid: u32,
    pub name: Seq<char>,
    pub name_lower: Seq<char>,
    pub system: bool,
    pub display_name: Seq<char>,
    pub display_key: Seq<char>,
}

impl View for ProcessListing {
    type V = ProcessListingView;

    open spec fn view(&self) -> ProcessListingView {
        ProcessListingView {
            pid: self.pid,
            name: self.name@,
            name_lower: self.name_lower@,
            system: self.system,
            display_name: self.display_name@,
            display_key: self.display_key@,
        }
    }
}

/// The views of a sequence of listings.
pub open spec fn listing_views(v: Seq<ProcessListing>) -> Seq<ProcessListingView> {
    v.map_values(|p: ProcessListing| p@)
}

/// The listing of a running process.
pub open spec fn listing_of(p: RunningProcess) -> ProcessListingView {
    let lower = spec_to_lowercase(p.name@);
    let display = friendly_name(p.name@);
    ProcessListingView {
        pid: p.pid,
        name: p.name@,
        name_lower: lower,
        system: is_system_name(spec_to_lowercase(lower)),
        display_name: display,
        display_key: spec_to_lowercase(display),
    }
}

/// The listings of a process list.
pub open spec fn process_listings(procs: Seq<RunningProcess>) -> Seq<ProcessListingView> {
    procs.map_values(|p: RunningProcess| listing_of(p))
}

/// The applications gathered from process listings, in process order, with
/// the lowercase executable names seen so far and each application's sort key.
/// System processes are skipped; the first process of each executable (by
/// lowercase name) makes an entry; a later process of a known executable with
/// an active audio session marks the first entry with that executable (up to
/// ASCII case) as playing audio, under its own process id.
pub open spec fn collected_listings(entries: Seq<ProcessListingView>, audio_pids: Set<u32>) -> (Seq<
    RecordableAppView,
>, Seq<Seq<char>>, Seq<Seq<char>>)
    decreases entries.len(),
{
    if entries.len() == 0 {
        (Seq::empty(), Seq::empty(), Seq::empty())
    } else {
        let (apps, seen, keys) = collected_listings(entries.drop_last(), audio_pids);
        let e = entries.last();
        if e.system {
            (apps, seen, keys)
        } else if !seen.contains(e.name_lower) {
            (
                apps.push(
                    RecordableAppView {
                        id: e.name,
                        name: e.display_name,
                        executable: e.name,
                        pid: Some(e.pid),
                        has_audio: audio_pids.contains(e.pid),
                        icon: None,
                    },
                ),
                seen.push(e.name_lower),
                keys.push(e.display_key),
            )
        } else if audio_pids.contains(e.pid) {
            match find_executable_from(apps, e.name, 0) {
                Some(j) => (
                    apps.update(j, RecordableAppView { has_audio: true, pid: Some(e.pid), ..apps[j] }),
                    seen,
                    keys,
                ),
                None => (apps, seen, keys),
            }
        } else {
            (apps, seen, keys)
        }
    }
}

/// The applications gathered from a process list (see `collected_listings`).
pub open spec fn collected_apps(procs: Seq<RunningProcess>, audio_pids: Set<u32>) -> (Seq<
    RecordableAppView,
>, Seq<Seq<char>>, Seq<Seq<char>>) {
    collected_listings(process_listings(procs), audio_pids)
}

/// An entry with audio flag `a_audio` and sort key `a_key` is listed before
/// one with `b_audio` and `b_key`: entries playing audio come first, then
/// entries by key.
pub open spec fn entry_precedes(a_audio: bool, a_key: Seq<char>, b_audio: bool, b_key: Seq<char>) -> bool {
    ||| a_audio && !b_audio
    ||| a_audio == b_audio && lex_lt(a_key, b_key)
}

/// Item `a` of `items` (with sort key `keys[a]`) is listed before item `b`.
pub open spec fn item_precedes(items: Seq<RecordableAppView>, keys: Seq<Seq<char>>, a: int, b: int) -> bool {
    entry_precedes(items[a].has_audio, keys[a], items[b].has_audio, keys[b])
}

/// `perm` shows that `sorted` is `items` sorted by `item_precedes`, keeping
/// the order of items that neither precedes.
pub open spec fn is_stable_sort_perm(
    sorted: Seq<RecordableAppView>,
    items: Seq<RecordableAppView>,
    keys: Seq<Seq<char>>,
    perm: Seq<int>,
) -> bool {
    &&& perm.len() == items.len()
    &&& sorted.len() == items.len()
    &&& keys.len() == items.len()
    &&& forall|k: int| 0 <= k < perm.len() ==> 0 <= #[trigger] perm[k] < items.len()
    &&& forall|k: int, j: int| 0 <= k < j < perm.len() ==> #[trigger] perm[k] != #[trigger] perm[j]
    &&& forall|t: int| 0 <= t < items.len() ==> #[trigger] perm_hits(perm, t)
    &&& forall|k: int| 0 <= k < sorted.len() ==> #[trigger] sorted[k] == items[perm[k]]
    &&& forall|k: int, j: int|
        0 <= k < j < perm.len() ==> !item_precedes(items, keys, #[trigger] perm[j], #[trigger] perm[k])
    &&& forall|k: int, j: int|
        0 <= k < j < perm.len() && !item_precedes(items, keys, #[trigger] perm[k], #[trigger] perm[j])
            ==> perm[k] < perm[j]
}

/// Index `t` is among the values of `perm`.
pub open spec fn perm_hits(perm: Seq<int>, t: int) -> bool {
    exists|k: int| 0 <= k < perm.len() && perm[k] == t
}

/// `sorted` is `items` sorted stably by audio flag and sort key.
pub open spec fn is_stable_sort_by_keys(
    sorted: Seq<RecordableAppView>,
    items: Seq<RecordableAppView>,
    keys: Seq<Seq<char>>,
) -> bool {
    exists|perm: Seq<int>| is_stable_sort_perm(sorted, items, keys, perm)
}

proof fn lemma_entry_irreflexive(a: bool, ka: Seq<char>)
    ensures
        !entry_precedes(a, ka, a, ka),
{
    lemma_lex_irreflexive(ka);
}

proof fn lemma_entry_transitive(a: bool, ka: Seq<char>, b: bool, kb: Seq<char>, c: bool, kc: Seq<char>)
    requires
        entry_precedes(a, ka, b, kb),
        entry_precedes(b, kb, c, kc),
    ensures
        entry_precedes(a, ka, c, kc),
{
    if a == b && b == c {
        lemma_lex_transitive(ka, kb, kc);
    }
}

proof fn lemma_entry_before_not_after(
    a: bool,
    ka: Seq<char>,
    b: bool,
    kb: Seq<char>,
    c: bool,
    kc: Seq<char>,
)
    requires
        entry_precedes(a, ka, b, kb),
        !entry_precedes(c, kc, b, kb),
    ensures
        entry_precedes(a, ka, c, kc),
{
    lemma_lex_total(kb, kc);
    if entry_precedes(b, kb, c, kc) {
        lemma_entry_transitive(a, ka, b, kb, c, kc);
    }
}

/// Whether `pid` is among `pids`.
fn contains_pid(pids: &HashSet<u32>, pid: u32) -> (found: bool)
    ensures
        found == pids@.contains(pid),
{
    broadcast use vstd::std_specs::hash::group_hash_axioms;

    pids.contains(&pid)
}

/// Whether a string with the characters of `s` is among `seen`.
fn contains_name(seen: &Vec<String>, s: &str) -> (found: bool)
    ensures
        found == crate::text::string_views(seen@).contains(s@),
{
    let ghost v = crate::text::string_views(seen@);
    let mut i: usize = 0;
    while i < seen.len()
        invariant
            i <= seen@.len(),
            v == crate::text::string_views(seen@),
            forall|k: int| 0 <= k < i ==> v[k] != s@,
        decreases seen@.len() - i,
    {
        if same_chars(seen[i].as_str(), s) {
            assert(v[i as int] == s@);
            return true;
        }
        i = i + 1;
    }
    false
}

/// Gathers the applications from process listings (see
/// `collected_listings`), with their sort keys.
fn collect_listed_apps(entries: &Vec<ProcessListing>, audio_pids: &HashSet<u32>) -> (r: (
    Vec<RecordableApp>,
    Vec<String>,
))
    ensures
        app_views(r.0@) == collected_listings(listing_views(entries@), audio_pids@).0,
        crate::text::string_views(r.1@) == collected_listings(listing_views(entries@), audio_pids@).2,
{
    let ghost ls = listing_views(entries@);
    let mut apps: Vec<RecordableApp> = Vec::new();
    let mut seen: Vec<String> = Vec::new();
    let mut keys: Vec<String> = Vec::new();
    let mut i: usize = 0;
    while i < entries.len()
        invariant
            i <= entries@.len(),
            ls == listing_views(entries@),
            (app_views(apps@), crate::text::string_views(seen@), crate::text::string_views(keys@))
                == collected_listings(ls.take(i as int), audio_pids@),
        decreases entries@.len() - i,
    {
        let ghost before = collected_listings(ls.take(i as int), audio_pids@);
        proof {
            assert(ls.take(i + 1).drop_last() =~= ls.take(i as int));
            assert(ls.take(i + 1).last() == entries@[i as int]@);
        }
        let e = &entries[i];
        if !e.system {
            let is_audio_active = contains_pid(audio_pids, e.pid);
            if !contains_name(&seen, e.name_lower.as_str()) {
                let app = RecordableApp {
                    id: e.name.clone(),
                    name: e.display_name.clone(),
                    executable: e.name.clone(),
                    pid: Some(e.pid),
                    has_audio: is_audio_active,
                    icon: None,
                };
                apps.push(app);
                seen.push(e.name_lower.clone());
                keys.push(e.display_key.clone());
                proof {
                    assert(app_views(apps@) =~= before.0.push(app@));
                    assert(crate::text::string_views(seen@) =~= before.1.push(e.name_lower@));
                    assert(crate::text::string_views(keys@) =~= before.2.push(e.display_key@));
                }
            } else if is_audio_active {
                let mut j: usize = 0;
                let mut found: Option<usize> = None;
                while j < apps.len()
                    invariant
                        j <= apps@.len(),
                        app_views(apps@) == before.0,
                        found is None ==> find_executable_from(before.0, e.name@, 0)
                            == find_executable_from(before.0, e.name@, j as int),
                        found matches Some(f) ==> f < apps@.len() && find_executable_from(
                            before.0,
                            e.name@,
                            0,
                        ) == Some(f as int),
                    decreases apps@.len() - j,
                {
                    if found.is_none() && same_ignoring_ascii_case(
                        apps[j].executable.as_str(),
                        e.name.as_str(),
                    ) {
                        found = Some(j);
                    }
                    j = j + 1;
                }
                if let Some(f) = found {
                    let mut app = apps.remove(f);
                    app.has_audio = true;
                    app.pid = Some(e.pid);
                    apps.insert(f, app);
                    proof {
                        assert(app_views(apps@) =~= before.0.update(
                            f as int,
                            RecordableAppView { has_audio: true, pid: Some(e.pid), ..before.0[f as int] },
                        ));
                    }
                }
            }
        }
        i = i + 1;
    }
    proof {
        assert(ls.take(entries@.len() as int) =~= ls);
    }
    (apps, keys)
}

/// Sorts applications by audio flag and sort key (`keys[k]` is the key of
/// `apps[k]`): those playing audio first, then by key, keeping the order of
/// applications that compare equal.
pub fn sort_recordable_apps(apps: Vec<RecordableApp>, keys: Vec<String>) -> (sorted: Vec<
    RecordableApp,
>)
    requires
        keys@.len() == apps@.len(),
    ensures
        is_stable_sort_by_keys(app_views(sorted@), app_views(apps@), crate::text::string_views(keys@)),
{
    let ghost items = app_views(apps@);
    let ghost ks = crate::text::string_views(keys@);
    let n = apps.len();
    let mut rest = apps;
    let mut rest_keys = keys;
    let mut sorted: Vec<RecordableApp> = Vec::new();
    let mut sorted_keys: Vec<String> = Vec::new();
    let ghost mut perm: Seq<int> = Seq::empty();
    let mut i: usize = 0;
    while i < n
        invariant
            n == items.len() == ks.len(),
            i <= n,
            app_views(rest@) == items.skip(i as int),
            crate::text::string_views(rest_keys@) == ks.skip(i as int),
            sorted@.len() == i,
            sorted_keys@.len() == i,
            perm.len() == i,
            forall|k: int| 0 <= k < i ==> 0 <= #[trigger] perm[k] < i,
            forall|k: int, j: int| 0 <= k < j < i ==> #[trigger] perm[k] != #[trigger] perm[j],
            forall|t: int| 0 <= t < i ==> #[trigger] perm_hits(perm, t),
            forall|k: int| 0 <= k < i ==> #[trigger] app_views(sorted@)[k] == items[perm[k]],
            forall|k: int| 0 <= k < i ==> #[trigger] sorted_keys@[k]@ == ks[perm[k]],
            forall|k: int, j: int|
                0 <= k < j < i ==> !item_precedes(items, ks, #[trigger] perm[j], #[trigger] perm[k]),
            forall|k: int, j: int|
                0 <= k < j < i && !item_precedes(items, ks, #[trigger] perm[k], #[trigger] perm[j])
                    ==> perm[k] < perm[j],
        decreases n - i,
    {
        proof {
            assert(app_views(rest@).len() == rest@.len());
            assert(crate::text::string_views(rest_keys@).len() == rest_keys@.len());
            assert(items.skip(i as int).len() == n - i);
            assert(app_views(rest@)[0] == rest@[0]@);
            assert(crate::text::string_views(rest_keys@)[0] == rest_keys@[0]@);
        }
        let ghost rest0 = rest@;
        let ghost rk0 = rest_keys@;
        let app = rest.remove(0);
        let key = rest_keys.remove(0);
        proof {
            assert(app@ == items[i as int]);
            assert(key@ == ks[i as int]);
            assert forall|k: int| 0 <= k < rest@.len() implies app_views(rest@)[k] == items.skip(
                i + 1,
            )[k] by {
                assert(rest@[k] == rest0[k + 1]);
                assert(app_views(rest0)[k + 1] == rest0[k + 1]@);
            }
            assert(app_views(rest@) =~= items.skip(i + 1));
            assert forall|k: int| 0 <= k < rest_keys@.len() implies crate::text::string_views(
                rest_keys@,
            )[k] == ks.skip(i + 1)[k] by {
                assert(rest_keys@[k] == rk0[k + 1]);
                assert(crate::text::string_views(rk0)[k + 1] == rk0[k + 1]@);
            }
            assert(crate::text::string_views(rest_keys@) =~= ks.skip(i + 1));
        }
        let mut pos: usize = 0;
        while pos < sorted.len() && !((app.has_audio && !sorted[pos].has_audio) || (app.has_audio
            == sorted[pos].has_audio && lex_less(key.as_str(), sorted_keys[pos].as_str())))
            invariant
                pos <= sorted@.len(),
                sorted@.len() == sorted_keys@.len() == i,
                i < n,
                perm.len() == i,
                app@ == items[i as int],
                key@ == ks[i as int],
                forall|k: int| 0 <= k < i ==> #[trigger] app_views(sorted@)[k] == items[perm[k]],
                forall|k: int| 0 <= k < i ==> #[trigger] sorted_keys@[k]@ == ks[perm[k]],
                forall|k: int| 0 <= k < pos ==> !item_precedes(items, ks, i as int, #[trigger] perm[k]),
            decreases sorted@.len() - pos,
        {
            proof {
                assert(app_views(sorted@)[pos as int] == sorted@[pos as int]@);
            }
            pos = pos + 1;
        }
        proof {
            if pos < i {
                assert(app_views(sorted@)[pos as int] == sorted@[pos as int]@);
                assert(item_precedes(items, ks, i as int, perm[pos as int]));
            }
        }
        let ghost old_perm = perm;
        let ghost old_sorted = sorted@;
        let ghost old_keys = sorted_keys@;
        sorted.insert(pos, app);
        sorted_keys.insert(pos, key);
        proof {
            perm = perm.insert(pos as int, i as int);
            assert forall|t: int| 0 <= t < i + 1 implies #[trigger] perm_hits(perm, t) by {
                if t == i {
                    assert(perm[pos as int] == i);
                } else {
                    assert(perm_hits(old_perm, t));
                    let k = choose|k: int| 0 <= k < old_perm.len() && old_perm[k] == t;
                    if k < pos {
                        assert(perm[k] == t);
                    } else {
                        assert(perm[k + 1] == t);
                    }
                }
            }
            assert forall|k: int| 0 <= k < i + 1 implies #[trigger] app_views(sorted@)[k]
                == items[perm[k]] by {
                if k < pos {
                    assert(sorted@[k] == old_sorted[k]);
                    assert(app_views(old_sorted)[k] == old_sorted[k]@);
                } else if k > pos {
                    assert(sorted@[k] == old_sorted[k - 1]);
                    assert(app_views(old_sorted)[k - 1] == old_sorted[k - 1]@);
                }
            }
            assert forall|k: int| 0 <= k < i + 1 implies #[trigger] sorted_keys@[k]@ == ks[perm[k]] by {
                if k < pos {
                    assert(sorted_keys@[k] == old_keys[k]);
                } else if k > pos {
                    assert(sorted_keys@[k] == old_keys[k - 1]);
                }
            }
            assert forall|k: int, j: int| 0 <= k < j < i + 1 implies !item_precedes(
                items,
                ks,
                #[trigger] perm[j],
                #[trigger] perm[k],
            ) by {
                if k == pos {
                    if item_precedes(items, ks, perm[j], perm[k]) {
                        let a = old_perm[j - 1];
                        let b = old_perm[pos as int];
                        lemma_entry_transitive(
                            items[a].has_audio,
                            ks[a],
                            items[i as int].has_audio,
                            ks[i as int],
                            items[b].has_audio,
                            ks[b],
                        );
                        if j - 1 == pos {
                            lemma_entry_irreflexive(items[b].has_audio, ks[b]);
                        } else {
                            assert(!item_precedes(items, ks, old_perm[j - 1], old_perm[pos as int]));
                        }
                    }
                } else if j == pos {
                } else if k < pos && j > pos {
                    assert(!item_precedes(items, ks, old_perm[j - 1], old_perm[k]));
                } else if k > pos {
                    assert(!item_precedes(items, ks, old_perm[j - 1], old_perm[k - 1]));
                } else {
                    assert(!item_precedes(items, ks, old_perm[j], old_perm[k]));
                }
            }
            assert forall|k: int, j: int|
                0 <= k < j < i + 1 && !item_precedes(items, ks, #[trigger] perm[k], #[trigger] perm[j])
                    implies perm[k] < perm[j] by {
                if k == pos {
                    if j - 1 != pos {
                        let b = old_perm[pos as int];
                        let c = old_perm[j - 1];
                        assert(!item_precedes(items, ks, c, b));
                        lemma_entry_before_not_after(
                            items[i as int].has_audio,
                            ks[i as int],
                            items[b].has_audio,
                            ks[b],
                            items[c].has_audio,
                            ks[c],
                        );
                    }
                } else if j == pos {
                } else if k < pos && j > pos {
                    assert(!item_precedes(items, ks, old_perm[k], old_perm[j - 1]) ==> old_perm[k]
                        < old_perm[j - 1]);
                } else if k > pos {
                    assert(!item_precedes(items, ks, old_perm[k - 1], old_perm[j - 1])
                        ==> old_perm[k - 1] < old_perm[j - 1]);
                } else {
                    assert(!item_precedes(items, ks, old_perm[k], old_perm[j]) ==> old_perm[k]
                        < old_perm[j]);
                }
            }
        }
        i = i + 1;
    }
    proof {
        assert(is_stable_sort_perm(app_views(sorted@), items, ks, perm));
    }
    sorted
}

/// The recordable applications given process listings and the process ids
/// with an active audio session: gathered as `collected_listings` says, then
/// sorted with applications playing audio first and by lowercase display name,
/// keeping ties in order.
pub fn list_recordable_apps(entries: &Vec<ProcessListing>, audio_pids: &HashSet<u32>) -> (apps: Vec<
    RecordableApp,
>)
    ensures
        is_stable_sort_by_keys(
            app_views(apps@),
            collected_listings(listing_views(entries@), audio_pids@).0,
            collected_listings(listing_views(entries@), audio_pids@).2,
        ),
{
    let (apps, keys) = collect_listed_apps(entries, audio_pids);
    proof {
        lemma_collected_listings_lengths(listing_views(entries@), audio_pids@);
    }
    sort_recordable_apps(apps, keys)
}

proof fn lemma_collected_listings_lengths(entries: Seq<ProcessListingView>, audio_pids: Set<u32>)
    ensures
        ({
            let (apps, seen, keys) = collected_listings(entries, audio_pids);
            apps.len() == seen.len() && keys.len() == apps.len()
        }),
    decreases entries.len(),
{
    if entries.len() > 0 {
        lemma_collected_listings_lengths(entries.drop_last(), audio_pids);
        lemma_find_executable(collected_listings(entries.drop_last(), audio_pids).0, entries.last().name, 0, 0);
    }
}

/// The listing of each process: lowercase names, system test, display name.
fn listings_of(processes: &Vec<RunningProcess>) -> (entries: Vec<ProcessListing>)
    ensures
        listing_views(entries@) == process_listings(processes@),
        forall|k: int|
            #![trigger processes@[k]]
            0 <= k < processes@.len() && is_ascii_chars(processes@[k].name@) ==> is_ascii_lowercase_of(
                spec_to_lowercase(processes@[k].name@),
                processes@[k].name@,
            ),
{
    let mut entries: Vec<ProcessListing> = Vec::new();
    let mut i: usize = 0;
    while i < processes.len()
        invariant
            i <= processes@.len(),
            listing_views(entries@) == process_listings(processes@).take(i as int),
            entries@.len() == i,
            forall|k: int|
                #![trigger processes@[k]]
                0 <= k < i && is_ascii_chars(processes@[k].name@) ==> is_ascii_lowercase_of(
                    spec_to_lowercase(processes@[k].name@),
                    processes@[k].name@,
                ),
        decreases processes@.len() - i,
    {
        let p = &processes[i];
        let lower = to_lowercase(p.name.as_str());
        assert(processes@[i as int].name@ == p.name@);
        let lower_again = to_lowercase(lower.as_str());
        let system = is_system_name_lowercase(lower_again.as_str());
        let display_name = friendly_name_from_lowercase(p.name.as_str(), lower.as_str());
        let display_key = to_lowercase(display_name.as_str());
        let ghost old_entries = entries@;
        let e = ProcessListing {
            pid: p.pid,
            name: p.name.clone(),
            name_lower: lower,
            system,
            display_name,
            display_key,
        };
        entries.push(e);
        proof {
            assert(e@ == listing_of(processes@[i as int]));
            assert forall|k: int| 0 <= k < i + 1 implies listing_views(entries@)[k]
                == process_listings(processes@).take(i + 1)[k] by {
                if k < i {
                    assert(entries@[k] == old_entries[k]);
                    assert(listing_views(old_entries)[k] == old_entries[k]@);
                }
            }
            assert(listing_views(entries@) =~= process_listings(processes@).take(i + 1));
        }
        i = i + 1;
    }
    proof {
        assert(process_listings(processes@).take(processes@.len() as int) =~= process_listings(
            processes@,
        ));
    }
    entries
}

/// Process `i` of `procs` is named `exe`.
pub open spec fn process_named(procs: Seq<RunningProcess>, i: int, exe: Seq<char>) -> bool {
    0 <= i < procs.len() && procs[i].name@ == exe
}

/// Application `k` of `apps` has an executable whose lowercase form is `lower`.
pub open spec fn app_with_lowercase(apps: Seq<RecordableAppView>, k: int, lower: Seq<char>) -> bool {
    0 <= k < apps.len() && spec_to_lowercase(apps[k].executable) == lower
}

/// Process `i` of `procs` is not a system process.
pub open spec fn non_system_process(procs: Seq<RunningProcess>, i: int) -> bool {
    0 <= i < procs.len() && !is_system_name(spec_to_lowercase(spec_to_lowercase(procs[i].name@)))
}

/// The list has one entry per executable (by lowercase name) of the
/// non-system processes and no other entry, each made as a fresh listing of
/// one of those processes.
pub open spec fn lists_each_executable_once(apps: Seq<RecordableAppView>, procs: Seq<RunningProcess>) -> bool {
    &&& forall|k: int|
        0 <= k < apps.len() ==> !is_system_name(
            spec_to_lowercase(spec_to_lowercase(#[trigger] apps[k].executable)),
        )
    &&& forall|k: int|
        #![trigger apps[k]]
        0 <= k < apps.len() ==> exists|i: int| #[trigger] process_named(procs, i, apps[k].executable)
    &&& forall|i: int|
        #[trigger] non_system_process(procs, i) ==> exists|k: int|
            #[trigger] app_with_lowercase(apps, k, spec_to_lowercase(procs[i].name@))
    &&& forall|k: int, j: int|
        0 <= k < j < apps.len() ==> spec_to_lowercase(#[trigger] apps[k].executable)
            != spec_to_lowercase(#[trigger] apps[j].executable)
    &&& forall|k: int|
        0 <= k < apps.len() ==> {
            let a = #[trigger] apps[k];
            &&& a.id == a.executable
            &&& a.name == friendly_name(a.executable)
            &&& a.icon is None
            &&& a.pid is Some
        }
}

/// Process `f` is the first one of `procs` whose lowercase executable name is
/// `lower`.
pub open spec fn first_process_with_lowercase(procs: Seq<RunningProcess>, f: int, lower: Seq<char>) -> bool {
    &&& 0 <= f < procs.len()
    &&& spec_to_lowercase(procs[f].name@) == lower
    &&& forall|j: int| 0 <= j < f ==> spec_to_lowercase(#[trigger] procs[j].name@) != lower
}

/// An application playing audio has the id of a process with an active audio
/// session; one that does not has the id of the first process of its
/// executable.
pub open spec fn audio_flags_hold(
    apps: Seq<RecordableAppView>,
    procs: Seq<RunningProcess>,
    audio_pids: Set<u32>,
) -> bool {
    &&& forall|k: int|
        0 <= k < apps.len() && (#[trigger] apps[k]).has_audio ==> (apps[k].pid matches Some(q)
            && audio_pids.contains(q))
    &&& forall|k: int|
        0 <= k < apps.len() && !(#[trigger] apps[k]).has_audio ==> exists|f: int|
            #[trigger] first_process_with_lowercase(procs, f, spec_to_lowercase(apps[k].executable))
                && apps[k].pid == Some(procs[f].pid)
}

/// Lowercasing and ASCII case folding agree on which process names are the
/// same (as they do for ASCII names).
pub open spec fn case_folds_agree(procs: Seq<RunningProcess>) -> bool {
    forall|i: int, j: int|
        0 <= i < procs.len() && 0 <= j < procs.len() ==> ((spec_to_lowercase(
            #[trigger] procs[i].name@,
        ) == spec_to_lowercase(#[trigger] procs[j].name@)) == eq_ignore_ascii_case(
            procs[i].name@,
            procs[j].name@,
        ))
}

/// Process `i` has lowercase executable name `lower` and an active audio
/// session.
pub open spec fn audio_process_with_lowercase(
    procs: Seq<RunningProcess>,
    audio_pids: Set<u32>,
    i: int,
    lower: Seq<char>,
) -> bool {
    &&& 0 <= i < procs.len()
    &&& spec_to_lowercase(procs[i].name@) == lower
    &&& audio_pids.contains(procs[i].pid)
}

/// An application is marked as playing audio exactly when some process of
/// its executable has an active audio session.
pub open spec fn audio_flag_complete(
    apps: Seq<RecordableAppView>,
    procs: Seq<RunningProcess>,
    audio_pids: Set<u32>,
) -> bool {
    forall|k: int|
        0 <= k < apps.len() ==> ((#[trigger] apps[k]).has_audio <==> exists|i: int|
            #[trigger] audio_process_with_lowercase(
                procs,
                audio_pids,
                i,
                spec_to_lowercase(apps[k].executable),
            ))
}

/// What holds of the gathered applications, the lowercase names seen and the
/// sort keys after a process list.
pub open spec fn collection_holds(
    procs: Seq<RunningProcess>,
    audio_pids: Set<u32>,
    apps: Seq<RecordableAppView>,
    seen: Seq<Seq<char>>,
    keys: Seq<Seq<char>>,
) -> bool {
    &&& apps.len() == seen.len()
    &&& keys.len() == apps.len()
    &&& forall|k: int|
        0 <= k < apps.len() ==> #[trigger] seen[k] == spec_to_lowercase(apps[k].executable)
    &&& forall|k: int| 0 <= k < apps.len() ==> #[trigger] keys[k] == spec_to_lowercase(apps[k].name)
    &&& seen.no_duplicates()
    &&& lists_each_executable_once(apps, procs)
    &&& audio_flags_hold(apps, procs, audio_pids)
    &&& case_folds_agree(procs) ==> audio_flag_complete(apps, procs, audio_pids)
}

/// What one more process (the last of `procs`) meets among the applications
/// gathered from the processes before it.
proof fn lemma_step_facts(
    procs: Seq<RunningProcess>,
    audio_pids: Set<u32>,
    apps: Seq<RecordableAppView>,
    seen: Seq<Seq<char>>,
    keys: Seq<Seq<char>>,
)
    requires
        procs.len() > 0,
        collection_holds(procs.drop_last(), audio_pids, apps, seen, keys),
    ensures
        forall|k: int|
            0 <= k < apps.len() && #[trigger] seen[k] == spec_to_lowercase(procs.last().name@)
                ==> !is_system_name(spec_to_lowercase(spec_to_lowercase(procs.last().name@))),
        forall|j: int|
            0 <= j < procs.len() - 1 && spec_to_lowercase(#[trigger] procs[j].name@)
                == spec_to_lowercase(procs.last().name@) && !is_system_name(
                spec_to_lowercase(spec_to_lowercase(procs.last().name@)),
            ) ==> seen.contains(spec_to_lowercase(procs.last().name@)),
        case_folds_agree(procs) ==> forall|k: int|
            0 <= k < apps.len() && #[trigger] seen[k] == spec_to_lowercase(procs.last().name@)
                ==> find_executable_from(apps, procs.last().name@, 0) == Some(k),
{
    let q = procs.drop_last();
    let n = procs.len() - 1;
    let p = procs[n];
    let lower = spec_to_lowercase(p.name@);
    let system = is_system_name(spec_to_lowercase(lower));
    assert forall|i: int| 0 <= i < n implies #[trigger] procs[i] == q[i] by {}
    assert forall|k: int| 0 <= k < apps.len() && #[trigger] seen[k] == lower implies !system by {
        assert(!is_system_name(spec_to_lowercase(spec_to_lowercase(apps[k].executable))));
    }
    assert forall|j: int|
        0 <= j < n && spec_to_lowercase(#[trigger] procs[j].name@) == lower && !system implies seen.contains(
            lower,
        ) by {
        assert(procs[j] == q[j]);
        assert(non_system_process(q, j));
        let k = choose|k: int| #[trigger] app_with_lowercase(apps, k, spec_to_lowercase(q[j].name@));
        assert(seen[k] == lower);
    }
    if case_folds_agree(procs) {
        assert forall|k: int| 0 <= k < apps.len() && #[trigger] seen[k] == lower implies find_executable_from(
            apps,
            p.name@,
            0,
        ) == Some(k) by {
            let i = choose|i: int| #[trigger] process_named(q, i, apps[k].executable);
            assert(procs[i] == q[i]);
            assert(spec_to_lowercase(procs[i].name@) == spec_to_lowercase(procs[n].name@));
            assert(eq_ignore_ascii_case(procs[i].name@, procs[n].name@));
            lemma_find_executable(apps, p.name@, 0, k);
            let j = find_executable_from(apps, p.name@, 0).unwrap();
            let i2 = choose|i2: int| #[trigger] process_named(q, i2, apps[j].executable);
            assert(procs[i2] == q[i2]);
            assert(eq_ignore_ascii_case(procs[i2].name@, procs[n].name@));
            assert(spec_to_lowercase(procs[i2].name@) == spec_to_lowercase(procs[n].name@));
            assert(seen[j] == lower);
        }
    }
}

/// The gathered applications do not change with the last process (a system
/// process, or one of a known executable that adds no audio session).
proof fn lemma_step_unchanged(
    procs: Seq<RunningProcess>,
    audio_pids: Set<u32>,
    apps: Seq<RecordableAppView>,
    seen: Seq<Seq<char>>,
    keys: Seq<Seq<char>>,
)
    requires
        procs.len() > 0,
        collected_apps(procs.drop_last(), audio_pids) == (apps, seen, keys),
        collection_holds(procs.drop_last(), audio_pids, apps, seen, keys),
        is_system_name(spec_to_lowercase(spec_to_lowercase(procs.last().name@))) || (seen.contains(
            spec_to_lowercase(procs.last().name@),
        ) && (!audio_pids.contains(procs.last().pid) || find_executable_from(
            apps,
            procs.last().name@,
            0,
        ) is None)),
    ensures
        collected_apps(procs, audio_pids) == (apps, seen, keys),
        collection_holds(procs, audio_pids, apps, seen, keys),
{
    lemma_step_facts(procs, audio_pids, apps, seen, keys);
    let q = procs.drop_last();
    let n = procs.len() - 1;
    let p = procs[n];
    let lower = spec_to_lowercase(p.name@);
    assert(process_listings(procs).drop_last() =~= process_listings(q));
    assert(process_listings(procs).last() == listing_of(p));
    assert forall|i: int| 0 <= i < n implies #[trigger] procs[i] == q[i] by {}
    assert forall|k: int| #![trigger apps[k]] 0 <= k < apps.len() implies exists|i: int|
        #[trigger] process_named(procs, i, apps[k].executable) by {
        let i = choose|i: int| #[trigger] process_named(q, i, apps[k].executable);
        assert(procs[i] == q[i]);
        assert(process_named(procs, i, apps[k].executable));
    }
    assert forall|i: int| #[trigger] non_system_process(procs, i) implies exists|k: int|
        #[trigger] app_with_lowercase(apps, k, spec_to_lowercase(procs[i].name@)) by {
        if i < n {
            assert(procs[i] == q[i]);
            assert(non_system_process(q, i));
        } else {
            let k = choose|k: int| 0 <= k < seen.len() && seen[k] == lower;
            assert(app_with_lowercase(apps, k, lower));
        }
    }
    assert forall|k: int| 0 <= k < apps.len() && !(#[trigger] apps[k]).has_audio implies exists|f: int|
        #[trigger] first_process_with_lowercase(procs, f, spec_to_lowercase(apps[k].executable))
            && apps[k].pid == Some(procs[f].pid) by {
        let f = choose|f: int|
            #[trigger] first_process_with_lowercase(q, f, spec_to_lowercase(apps[k].executable))
                && apps[k].pid == Some(q[f].pid);
        assert(procs[f] == q[f]);
        assert(first_process_with_lowercase(procs, f, spec_to_lowercase(apps[k].executable)));
    }
    if case_folds_agree(procs) {
        assert(case_folds_agree(q));
        assert forall|k: int| 0 <= k < apps.len() implies ((#[trigger] apps[k]).has_audio
            <==> exists|i: int|
            #[trigger] audio_process_with_lowercase(
                procs,
                audio_pids,
                i,
                spec_to_lowercase(apps[k].executable),
            )) by {
            if exists|i: int|
                #[trigger] audio_process_with_lowercase(
                    procs,
                    audio_pids,
                    i,
                    spec_to_lowercase(apps[k].executable),
                ) {
                let i = choose|i: int|
                    #[trigger] audio_process_with_lowercase(
                        procs,
                        audio_pids,
                        i,
                        spec_to_lowercase(apps[k].executable),
                    );
                if i == n {
                    assert(seen[k] == lower);
                    assert(find_executable_from(apps, p.name@, 0) == Some(k));
                } else {
                    assert(procs[i] == q[i]);
                    assert(audio_process_with_lowercase(
                        q,
                        audio_pids,
                        i,
                        spec_to_lowercase(apps[k].executable),
                    ));
                }
            }
            if apps[k].has_audio {
                let i = choose|i: int|
                    #[trigger] audio_process_with_lowercase(
                        q,
                        audio_pids,
                        i,
                        spec_to_lowercase(apps[k].executable),
                    );
                assert(procs[i] == q[i]);
                assert(audio_process_with_lowercase(
                    procs,
                    audio_pids,
                    i,
                    spec_to_lowercase(apps[k].executable),
                ));
            }
        }
    }
}

/// The application made for the first process of an executable.
pub open spec fn new_entry(p: RunningProcess, audio_pids: Set<u32>) -> RecordableAppView {
    RecordableAppView {
        id: p.name@,
        name: friendly_name(p.name@),
        executable: p.name@,
        pid: Some(p.pid),
        has_audio: audio_pids.contains(p.pid),
        icon: None,
    }
}

/// The last process is the first non-system process of its executable: it
/// makes a new entry.
proof fn lemma_step_new_entry(
    procs: Seq<RunningProcess>,
    audio_pids: Set<u32>,
    apps: Seq<RecordableAppView>,
    seen: Seq<Seq<char>>,
    keys: Seq<Seq<char>>,
)
    requires
        procs.len() > 0,
        collected_apps(procs.drop_last(), audio_pids) == (apps, seen, keys),
        collection_holds(procs.drop_last(), audio_pids, apps, seen, keys),
        !is_system_name(spec_to_lowercase(spec_to_lowercase(procs.last().name@))),
        !seen.contains(spec_to_lowercase(procs.last().name@)),
    ensures
        collected_apps(procs, audio_pids) == (
            apps.push(new_entry(procs.last(), audio_pids)),
            seen.push(spec_to_lowercase(procs.last().name@)),
            keys.push(spec_to_lowercase(friendly_name(procs.last().name@))),
        ),
        collection_holds(
            procs,
            audio_pids,
            apps.push(new_entry(procs.last(), audio_pids)),
            seen.push(spec_to_lowercase(procs.last().name@)),
            keys.push(spec_to_lowercase(friendly_name(procs.last().name@))),
        ),
{
    lemma_step_facts(procs, audio_pids, apps, seen, keys);
    let q = procs.drop_last();
    let n = procs.len() - 1;
    let p = procs[n];
    let lower = spec_to_lowercase(p.name@);
    assert(process_listings(procs).drop_last() =~= process_listings(q));
    assert(process_listings(procs).last() == listing_of(p));
    let apps2 = apps.push(new_entry(p, audio_pids));
    let seen2 = seen.push(lower);
    let keys2 = keys.push(spec_to_lowercase(friendly_name(p.name@)));
    let m = apps.len() as int;
    assert forall|i: int| 0 <= i < n implies #[trigger] procs[i] == q[i] by {}
    assert forall|j: int| 0 <= j < n implies spec_to_lowercase(#[trigger] procs[j].name@) != lower by {}
    assert forall|k: int| 0 <= k < m implies #[trigger] seen[k] != lower by {}
    assert forall|k: int| 0 <= k < apps2.len() implies #[trigger] seen2[k] == spec_to_lowercase(
        apps2[k].executable,
    ) by {}
    assert forall|k: int| 0 <= k < apps2.len() implies #[trigger] keys2[k] == spec_to_lowercase(
        apps2[k].name,
    ) by {}
    assert forall|a: int, b: int| 0 <= a < seen2.len() && 0 <= b < seen2.len() && a != b implies seen2[a]
        != seen2[b] by {
        if a < m && b < m {
            assert(seen[a] != seen[b]);
        }
    }
    assert(seen2.no_duplicates());
    assert forall|k: int| #![trigger apps2[k]] 0 <= k < apps2.len() implies exists|i: int|
        #[trigger] process_named(procs, i, apps2[k].executable) by {
        if k == m {
            assert(process_named(procs, n, apps2[k].executable));
        } else {
            let i = choose|i: int| #[trigger] process_named(q, i, apps[k].executable);
            assert(procs[i] == q[i]);
            assert(process_named(procs, i, apps2[k].executable));
        }
    }
    assert forall|i: int| #[trigger] non_system_process(procs, i) implies exists|k: int|
        #[trigger] app_with_lowercase(apps2, k, spec_to_lowercase(procs[i].name@)) by {
        if i == n {
            assert(app_with_lowercase(apps2, m, lower));
        } else {
            assert(procs[i] == q[i]);
            assert(non_system_process(q, i));
            let k = choose|k: int| #[trigger] app_with_lowercase(apps, k, spec_to_lowercase(q[i].name@));
            assert(app_with_lowercase(apps2, k, spec_to_lowercase(procs[i].name@)));
        }
    }
    assert forall|k: int, j: int| 0 <= k < j < apps2.len() implies spec_to_lowercase(
        #[trigger] apps2[k].executable,
    ) != spec_to_lowercase(#[trigger] apps2[j].executable) by {
        assert(seen2[k] == spec_to_lowercase(apps2[k].executable));
        assert(seen2[j] == spec_to_lowercase(apps2[j].executable));
    }
    assert forall|k: int| 0 <= k < apps2.len() && !(#[trigger] apps2[k]).has_audio implies exists|f: int|
        #[trigger] first_process_with_lowercase(procs, f, spec_to_lowercase(apps2[k].executable))
            && apps2[k].pid == Some(procs[f].pid) by {
        if k == m {
            assert(first_process_with_lowercase(procs, n, lower));
        } else {
            let f = choose|f: int|
                #[trigger] first_process_with_lowercase(q, f, spec_to_lowercase(apps[k].executable))
                    && apps[k].pid == Some(q[f].pid);
            assert(procs[f] == q[f]);
            assert(first_process_with_lowercase(procs, f, spec_to_lowercase(apps2[k].executable)));
        }
    }
    if case_folds_agree(procs) {
        assert(case_folds_agree(q));
        assert forall|k: int| 0 <= k < apps2.len() implies ((#[trigger] apps2[k]).has_audio
            <==> exists|i: int|
            #[trigger] audio_process_with_lowercase(
                procs,
                audio_pids,
                i,
                spec_to_lowercase(apps2[k].executable),
            )) by {
            if k == m {
                if apps2[k].has_audio {
                    assert(audio_process_with_lowercase(procs, audio_pids, n, lower));
                }
            } else {
                assert(seen[k] != lower);
                if exists|i: int|
                    #[trigger] audio_process_with_lowercase(
                        procs,
                        audio_pids,
                        i,
                        spec_to_lowercase(apps2[k].executable),
                    ) {
                    let i = choose|i: int|
                        #[trigger] audio_process_with_lowercase(
                            procs,
                            audio_pids,
                            i,
                            spec_to_lowercase(apps2[k].executable),
                        );
                    assert(i != n);
                    assert(procs[i] == q[i]);
                    assert(audio_process_with_lowercase(
                        q,
                        audio_pids,
                        i,
                        spec_to_lowercase(apps[k].executable),
                    ));
                }
                if apps2[k].has_audio {
                    let i = choose|i: int|
                        #[trigger] audio_process_with_lowercase(
                            q,
                            audio_pids,
                            i,
                            spec_to_lowercase(apps[k].executable),
                        );
                    assert(procs[i] == q[i]);
                    assert(audio_process_with_lowercase(
                        procs,
                        audio_pids,
                        i,
                        spec_to_lowercase(apps2[k].executable),
                    ));
                }
            }
        }
    }
}

/// The last process has an active audio session and belongs to a known
/// executable: the entry found for it is marked as playing audio.
proof fn lemma_step_audio_merge(
    procs: Seq<RunningProcess>,
    audio_pids: Set<u32>,
    apps: Seq<RecordableAppView>,
    seen: Seq<Seq<char>>,
    keys: Seq<Seq<char>>,
    j: int,
)
    requires
        procs.len() > 0,
        collected_apps(procs.drop_last(), audio_pids) == (apps, seen, keys),
        collection_holds(procs.drop_last(), audio_pids, apps, seen, keys),
        !is_system_name(spec_to_lowercase(spec_to_lowercase(procs.last().name@))),
        seen.contains(spec_to_lowercase(procs.last().name@)),
        audio_pids.contains(procs.last().pid),
        find_executable_from(apps, procs.last().name@, 0) == Some(j),
    ensures
        0 <= j < apps.len(),
        collected_apps(procs, audio_pids) == (
            apps.update(j, RecordableAppView { has_audio: true, pid: Some(procs.last().pid), ..apps[j] }),
            seen,
            keys,
        ),
        collection_holds(
            procs,
            audio_pids,
            apps.update(j, RecordableAppView { has_audio: true, pid: Some(procs.last().pid), ..apps[j] }),
            seen,
            keys,
        ),
{
    lemma_step_facts(procs, audio_pids, apps, seen, keys);
    lemma_find_executable(apps, procs.last().name@, 0, 0);
    let q = procs.drop_last();
    let n = procs.len() - 1;
    let p = procs[n];
    let lower = spec_to_lowercase(p.name@);
    assert(process_listings(procs).drop_last() =~= process_listings(q));
    assert(process_listings(procs).last() == listing_of(p));
    let apps2 = apps.update(j, RecordableAppView { has_audio: true, pid: Some(p.pid), ..apps[j] });
    assert forall|i: int| 0 <= i < n implies #[trigger] procs[i] == q[i] by {}
    assert forall|k: int| 0 <= k < apps.len() implies {
        &&& #[trigger] apps2[k].executable == apps[k].executable
        &&& apps2[k].name == apps[k].name
        &&& apps2[k].id == apps[k].id
        &&& apps2[k].icon == apps[k].icon
        &&& apps2[k].pid is Some
        &&& k != j ==> apps2[k] == apps[k]
    } by {}
    assert forall|k: int| #![trigger apps2[k]] 0 <= k < apps2.len() implies exists|i: int|
        #[trigger] process_named(procs, i, apps2[k].executable) by {
        let i = choose|i: int| #[trigger] process_named(q, i, apps[k].executable);
        assert(procs[i] == q[i]);
        assert(process_named(procs, i, apps2[k].executable));
    }
    assert forall|i: int| #[trigger] non_system_process(procs, i) implies exists|k: int|
        #[trigger] app_with_lowercase(apps2, k, spec_to_lowercase(procs[i].name@)) by {
        if i < n {
            assert(procs[i] == q[i]);
            assert(non_system_process(q, i));
            let k = choose|k: int| #[trigger] app_with_lowercase(apps, k, spec_to_lowercase(q[i].name@));
            assert(app_with_lowercase(apps2, k, spec_to_lowercase(procs[i].name@)));
        } else {
            let k = choose|k: int| 0 <= k < seen.len() && seen[k] == lower;
            assert(app_with_lowercase(apps2, k, lower));
        }
    }
    assert forall|k: int, l: int| 0 <= k < l < apps2.len() implies spec_to_lowercase(
        #[trigger] apps2[k].executable,
    ) != spec_to_lowercase(#[trigger] apps2[l].executable) by {
        assert(apps2[k].executable == apps[k].executable);
        assert(apps2[l].executable == apps[l].executable);
    }
    assert forall|k: int| 0 <= k < apps2.len() && !(#[trigger] apps2[k]).has_audio implies exists|f: int|
        #[trigger] first_process_with_lowercase(procs, f, spec_to_lowercase(apps2[k].executable))
            && apps2[k].pid == Some(procs[f].pid) by {
        assert(k != j);
        let f = choose|f: int|
            #[trigger] first_process_with_lowercase(q, f, spec_to_lowercase(apps[k].executable))
                && apps[k].pid == Some(q[f].pid);
        assert(procs[f] == q[f]);
        assert(first_process_with_lowercase(procs, f, spec_to_lowercase(apps2[k].executable)));
    }
    if case_folds_agree(procs) {
        assert(case_folds_agree(q));
        let k0 = choose|k0: int| 0 <= k0 < seen.len() && seen[k0] == lower;
        assert(j == k0);
        assert forall|k: int| 0 <= k < apps2.len() implies ((#[trigger] apps2[k]).has_audio
            <==> exists|i: int|
            #[trigger] audio_process_with_lowercase(
                procs,
                audio_pids,
                i,
                spec_to_lowercase(apps2[k].executable),
            )) by {
            if k == j {
                assert(audio_process_with_lowercase(procs, audio_pids, n, lower));
            } else {
                assert(seen[k] != seen[j]);
                if exists|i: int|
                    #[trigger] audio_process_with_lowercase(
                        procs,
                        audio_pids,
                        i,
                        spec_to_lowercase(apps2[k].executable),
                    ) {
                    let i = choose|i: int|
                        #[trigger] audio_process_with_lowercase(
                            procs,
                            audio_pids,
                            i,
                            spec_to_lowercase(apps2[k].executable),
                        );
                    assert(i != n);
                    assert(procs[i] == q[i]);
                    assert(audio_process_with_lowercase(
                        q,
                        audio_pids,
                        i,
                        spec_to_lowercase(apps[k].executable),
                    ));
                }
                if apps2[k].has_audio {
                    let i = choose|i: int|
                        #[trigger] audio_process_with_lowercase(
                            q,
                            audio_pids,
                            i,
                            spec_to_lowercase(apps[k].executable),
                        );
                    assert(procs[i] == q[i]);
                    assert(audio_process_with_lowercase(
                        procs,
                        audio_pids,
                        i,
                        spec_to_lowercase(apps2[k].executable),
                    ));
                }
            }
        }
    }
}

/// Each process keeps what `collection_holds` says of the gathered
/// applications.
proof fn lemma_collected_apps_hold(procs: Seq<RunningProcess>, audio_pids: Set<u32>)
    ensures
        ({
            let (apps, seen, keys) = collected_apps(procs, audio_pids);
            collection_holds(procs, audio_pids, apps, seen, keys)
        }),
    decreases procs.len(),
{
    if procs.len() == 0 {
        assert(process_listings(procs) =~= Seq::<ProcessListingView>::empty());
    } else {
        lemma_collected_apps_hold(procs.drop_last(), audio_pids);
        let p = procs.last();
        let (apps, seen, keys) = collected_apps(procs.drop_last(), audio_pids);
        let lower = spec_to_lowercase(p.name@);
        if is_system_name(spec_to_lowercase(lower)) || (seen.contains(lower) && (!audio_pids.contains(
            p.pid,
        ) || find_executable_from(apps, p.name@, 0) is None)) {
            lemma_step_unchanged(procs, audio_pids, apps, seen, keys);
        } else if !seen.contains(lower) {
            lemma_step_new_entry(procs, audio_pids, apps, seen, keys);
        } else {
            let j = find_executable_from(apps, p.name@, 0).unwrap();
            lemma_step_audio_merge(procs, audio_pids, apps, seen, keys, j);
        }
    }
}

/// The recordable applications, as `build_recordable_apps` lists them, keep
/// these promises for every process list and set of audio sessions: one entry
/// per executable (by lowercase name) of the non-system processes and no
/// other, each with a process name as id and executable, its friendly name, no
/// icon and a process id; an entry playing audio carries the id of a process
/// with an active audio session, one that does not carries the id of the first
/// process of its executable; and where lowercasing and ASCII case folding
/// agree on which process names are the same, an entry plays audio exactly
/// when some process of its executable has an active audio session.
pub proof fn lemma_recordable_apps_laws(
    apps: Seq<RecordableAppView>,
    processes: Seq<RunningProcess>,
    audio_pids: Set<u32>,
)
    requires
        is_stable_sort_by_keys(
            apps,
            collected_apps(processes, audio_pids).0,
            collected_apps(processes, audio_pids).2,
        ),
    ensures
        lists_each_executable_once(apps, processes),
        audio_flags_hold(apps, processes, audio_pids),
        case_folds_agree(processes) ==> audio_flag_complete(apps, processes, audio_pids),
{
    lemma_collected_apps_hold(processes, audio_pids);
    let (items, seen, keys) = collected_apps(processes, audio_pids);
    let perm = choose|perm: Seq<int>| is_stable_sort_perm(apps, items, keys, perm);
    assert forall|k: int| 0 <= k < apps.len() implies #[trigger] apps[k] == items[perm[k]] && 0
        <= perm[k] < items.len() by {}
    assert forall|k: int| 0 <= k < apps.len() implies !is_system_name(
        spec_to_lowercase(spec_to_lowercase(#[trigger] apps[k].executable)),
    ) by {
        assert(apps[k] == items[perm[k]]);
    }
    assert forall|k: int| #![trigger apps[k]] 0 <= k < apps.len() implies exists|i: int|
        #[trigger] process_named(processes, i, apps[k].executable) by {
        assert(apps[k] == items[perm[k]]);
    }
    assert forall|i: int| #[trigger] non_system_process(processes, i) implies exists|k: int|
        #[trigger] app_with_lowercase(apps, k, spec_to_lowercase(processes[i].name@)) by {
        let t = choose|t: int| #[trigger] app_with_lowercase(items, t, spec_to_lowercase(processes[i].name@));
        assert(perm_hits(perm, t));
        let k = choose|k: int| 0 <= k < perm.len() && perm[k] == t;
        assert(apps[k] == items[perm[k]]);
        assert(app_with_lowercase(apps, k, spec_to_lowercase(processes[i].name@)));
    }
    assert forall|k: int, j: int| 0 <= k < j < apps.len() implies spec_to_lowercase(
        #[trigger] apps[k].executable,
    ) != spec_to_lowercase(#[trigger] apps[j].executable) by {
        assert(apps[k] == items[perm[k]]);
        assert(apps[j] == items[perm[j]]);
        assert(perm[k] != perm[j]);
        if perm[k] < perm[j] {
            assert(spec_to_lowercase(items[perm[k]].executable) != spec_to_lowercase(
                items[perm[j]].executable,
            ));
        } else {
            assert(spec_to_lowercase(items[perm[j]].executable) != spec_to_lowercase(
                items[perm[k]].executable,
            ));
        }
    }
    assert forall|k: int| 0 <= k < apps.len() implies {
        let a = #[trigger] apps[k];
        &&& a.id == a.executable
        &&& a.name == friendly_name(a.executable)
        &&& a.icon is None
        &&& a.pid is Some
    } by {
        assert(apps[k] == items[perm[k]]);
    }
    assert forall|k: int| 0 <= k < apps.len() && (#[trigger] apps[k]).has_audio implies (
    apps[k].pid matches Some(q) && audio_pids.contains(q)) by {
        assert(apps[k] == items[perm[k]]);
    }
    assert forall|k: int| 0 <= k < apps.len() && !(#[trigger] apps[k]).has_audio implies exists|f: int|
        #[trigger] first_process_with_lowercase(processes, f, spec_to_lowercase(apps[k].executable))
            && apps[k].pid == Some(processes[f].pid) by {
        assert(apps[k] == items[perm[k]]);
    }
    if case_folds_agree(processes) {
        assert forall|k: int| 0 <= k < apps.len() implies ((#[trigger] apps[k]).has_audio
            <==> exists|i: int|
            #[trigger] audio_process_with_lowercase(
                processes,
                audio_pids,
                i,
                spec_to_lowercase(apps[k].executable),
            )) by {
            assert(apps[k] == items[perm[k]]);
        }
    }
}

/// All process names are ASCII.
pub open spec fn ascii_process_names(procs: Seq<RunningProcess>) -> bool {
    forall|i: int| 0 <= i < procs.len() ==> is_ascii_chars(#[trigger] procs[i].name@)
}

/// Where lowercasing maps ASCII letters as ASCII case folding does, it agrees
/// with ASCII case folding on which names are the same.
proof fn lemma_ascii_case_folds(procs: Seq<RunningProcess>)
    requires
        forall|i: int|
            0 <= i < procs.len() ==> is_ascii_lowercase_of(
                spec_to_lowercase(#[trigger] procs[i].name@),
                procs[i].name@,
            ),
    ensures
        case_folds_agree(procs),
{
    assert forall|i: int, j: int| 0 <= i < procs.len() && 0 <= j < procs.len() implies ((
    spec_to_lowercase(#[trigger] procs[i].name@) == spec_to_lowercase(#[trigger] procs[j].name@))
        == eq_ignore_ascii_case(procs[i].name@, procs[j].name@)) by {
        let a = procs[i].name@;
        let b = procs[j].name@;
        let la = spec_to_lowercase(a);
        let lb = spec_to_lowercase(b);
        assert(is_ascii_lowercase_of(la, a));
        assert(is_ascii_lowercase_of(lb, b));
        if la == lb {
            assert forall|k: int| 0 <= k < a.len() implies ascii_folded(#[trigger] a[k]) == ascii_folded(
                b[k],
            ) by {
                assert(la[k] == lb[k]);
            }
        }
        if eq_ignore_ascii_case(a, b) {
            assert forall|k: int| 0 <= k < la.len() implies la[k] == lb[k] by {
                assert(la[k] as int == ascii_folded(a[k]) as int);
                assert(lb[k] as int == ascii_folded(b[k]) as int);
            }
            assert(la =~= lb);
        }
    }
}

/// The applications that can be recorded, given the process list in the order
/// the process table gives it and the process ids with an active audio
/// session: gathered as `collected_apps` says, then sorted with applications
/// playing audio first and by lowercase display name, keeping ties in order.
pub fn build_recordable_apps(processes: &Vec<RunningProcess>, audio_pids: &HashSet<u32>) -> (apps: Vec<
    RecordableApp,
>)
    ensures
        is_stable_sort_by_keys(
            app_views(apps@),
            collected_apps(processes@, audio_pids@).0,
            collected_apps(processes@, audio_pids@).2,
        ),
        lists_each_executable_once(app_views(apps@), processes@),
        audio_flags_hold(app_views(apps@), processes@, audio_pids@),
        case_folds_agree(processes@) ==> audio_flag_complete(app_views(apps@), processes@, audio_pids@),
        ascii_process_names(processes@) ==> audio_flag_complete(
            app_views(apps@),
            processes@,
            audio_pids@,
        ),
{
    let entries = listings_of(processes);
    let apps = list_recordable_apps(&entries, audio_pids);
    proof {
        lemma_recordable_apps_laws(app_views(apps@), processes@, audio_pids@);
        if ascii_process_names(processes@) {
            assert forall|i: int| 0 <= i < processes@.len() implies is_ascii_lowercase_of(
                spec_to_lowercase(#[trigger] processes@[i].name@),
                processes@[i].name@,
            ) by {
                assert(is_ascii_chars(processes@[i].name@));
            }
            lemma_ascii_case_folds(processes@);
        }
    }
    apps
}

/// Process `p` runs the target executable `target` (lowercase): by process
/// name, with or without `.exe`, or by the file name of its executable path,
/// exactly or without its `.exe`.
#[verifier::opaque]
pub open spec fn process_matches(target: Seq<char>, p: RunningProcess) -> bool {
    let target_base = without_exe(target);
    let exe = spec_to_lowercase(p.name@);
    ||| exe == target
    ||| without_exe(exe) == target_base
    ||| match p.exe_file_name {
        Some(f) => {
            let file = spec_to_lowercase(f@);
            file == target || (ends_with_exe(file) && without_exe(file) == target_base)
        },
        None => false,
    }
}

/// Process `k` runs the target.
pub open spec fn is_candidate(procs: Seq<RunningProcess>, target: Seq<char>, k: int) -> bool {
    0 <= k < procs.len() && process_matches(target, procs[k])
}

/// Process `k` runs the target and has an active audio session.
pub open spec fn is_audio_candidate(
    procs: Seq<RunningProcess>,
    target: Seq<char>,
    audio_pids: Set<u32>,
    k: int,
) -> bool {
    is_candidate(procs, target, k) && audio_pids.contains(procs[k].pid)
}

/// Some process running the target has process id `pid`.
pub open spec fn candidate_has_pid(procs: Seq<RunningProcess>, target: Seq<char>, pid: u32) -> bool {
    exists|j: int| #[trigger] is_candidate(procs, target, j) && procs[j].pid == pid
}

/// Process `k` runs the target and its parent (if known) does not: it is the
/// root of the target's process tree.
pub open spec fn is_root_candidate(procs: Seq<RunningProcess>, target: Seq<char>, k: int) -> bool {
    &&& is_candidate(procs, target, k)
    &&& match procs[k].parent_pid {
        Some(parent) => !candidate_has_pid(procs, target, parent),
        None => true,
    }
}

/// The process id chosen for the target: the first process running it with an
/// active audio session; else the first root of its process tree; else the
/// first process running it; else none.
pub open spec fn selected_pid(procs: Seq<RunningProcess>, target: Seq<char>, audio_pids: Set<u32>) -> Option<
    u32,
> {
    if exists|k: int| #[trigger] is_audio_candidate(procs, target, audio_pids, k) {
        let k = choose|k: int|
            #[trigger] is_audio_candidate(procs, target, audio_pids, k) && forall|j: int|
                0 <= j < k ==> !is_audio_candidate(procs, target, audio_pids, j);
        Some(procs[k].pid)
    } else if exists|k: int| #[trigger] is_root_candidate(procs, target, k) {
        let k = choose|k: int|
            #[trigger] is_root_candidate(procs, target, k) && forall|j: int|
                0 <= j < k ==> !is_root_candidate(procs, target, j);
        Some(procs[k].pid)
    } else if exists|k: int| #[trigger] is_candidate(procs, target, k) {
        let k = choose|k: int|
            #[trigger] is_candidate(procs, target, k) && forall|j: int|
                0 <= j < k ==> !is_candidate(procs, target, j);
        Some(procs[k].pid)
    } else {
        None
    }
}

/// Where no process running the target has an active audio session, the
/// first process running the target whose parent is unknown, or is not the id
/// of any process running the target, is chosen: a parent that runs something
/// else does not keep a process from being the root of the target's tree.
pub proof fn lemma_selected_pid_first_root(
    procs: Seq<RunningProcess>,
    target: Seq<char>,
    audio_pids: Set<u32>,
    k: int,
)
    requires
        forall|j: int| #[trigger] is_candidate(procs, target, j) ==> !audio_pids.contains(procs[j].pid),
        is_candidate(procs, target, k),
        match procs[k].parent_pid {
            Some(parent) => forall|j: int|
                #[trigger] is_candidate(procs, target, j) ==> procs[j].pid != parent,
            None => true,
        },
        forall|j: int|
            0 <= j < k && #[trigger] is_candidate(procs, target, j) ==> (procs[j].parent_pid matches Some(
                parent,
            ) && exists|m: int| #[trigger] is_candidate(procs, target, m) && procs[m].pid == parent),
    ensures
        selected_pid(procs, target, audio_pids) == Some(procs[k].pid),
{
    assert forall|j: int| !#[trigger] is_audio_candidate(procs, target, audio_pids, j) by {
        if is_candidate(procs, target, j) {
            assert(!audio_pids.contains(procs[j].pid));
        }
    }
    assert(is_root_candidate(procs, target, k));
    assert forall|j: int| 0 <= j < k implies !#[trigger] is_root_candidate(procs, target, j) by {
        if is_candidate(procs, target, j) {
            let parent = procs[j].parent_pid.unwrap();
            let m = choose|m: int| #[trigger] is_candidate(procs, target, m) && procs[m].pid == parent;
            assert(candidate_has_pid(procs, target, parent));
        }
    }
    let c = choose|c: int|
        #[trigger] is_root_candidate(procs, target, c) && forall|j: int|
            0 <= j < c ==> !is_root_candidate(procs, target, j);
    assert(c == k) by {
        if c > k {
            assert(!is_root_candidate(procs, target, k));
        }
    }
}

/// The first process running the target that has an active audio session is
/// chosen, whatever its place in the process tree.
pub proof fn lemma_selected_pid_first_audio(
    procs: Seq<RunningProcess>,
    target: Seq<char>,
    audio_pids: Set<u32>,
    k: int,
)
    requires
        is_candidate(procs, target, k),
        audio_pids.contains(procs[k].pid),
        forall|j: int|
            0 <= j < k && #[trigger] is_candidate(procs, target, j) ==> !audio_pids.contains(
                procs[j].pid,
            ),
    ensures
        selected_pid(procs, target, audio_pids) == Some(procs[k].pid),
{
    assert(is_audio_candidate(procs, target, audio_pids, k));
    let c = choose|c: int|
        #[trigger] is_audio_candidate(procs, target, audio_pids, c) && forall|j: int|
            0 <= j < c ==> !is_audio_candidate(procs, target, audio_pids, j);
    assert(c == k) by {
        if c < k {
            assert(is_candidate(procs, target, c));
        } else if c > k {
            assert(!is_audio_candidate(procs, target, audio_pids, k));
        }
    }
}

/// Where no process running the target has an active audio session and
/// every one of them has a parent that also runs the target (a cycle of
/// parents), the first process running the target is chosen; where no
/// process runs the target, none is.
pub proof fn lemma_selected_pid_without_root(
    procs: Seq<RunningProcess>,
    target: Seq<char>,
    audio_pids: Set<u32>,
    k: int,
)
    requires
        forall|j: int| #[trigger] is_candidate(procs, target, j) ==> !audio_pids.contains(procs[j].pid),
        forall|j: int|
            #[trigger] is_candidate(procs, target, j) ==> (procs[j].parent_pid matches Some(parent)
                && exists|m: int| #[trigger] is_candidate(procs, target, m) && procs[m].pid == parent),
        forall|j: int| 0 <= j < k ==> !#[trigger] is_candidate(procs, target, j),
    ensures
        is_candidate(procs, target, k) ==> selected_pid(procs, target, audio_pids) == Some(
            procs[k].pid,
        ),
        (forall|j: int| !#[trigger] is_candidate(procs, target, j)) ==> selected_pid(
            procs,
            target,
            audio_pids,
        ) is None,
{
    assert forall|j: int| !#[trigger] is_audio_candidate(procs, target, audio_pids, j) by {
        if is_candidate(procs, target, j) {
            assert(!audio_pids.contains(procs[j].pid));
        }
    }
    assert forall|j: int| !#[trigger] is_root_candidate(procs, target, j) by {
        if is_candidate(procs, target, j) {
            let parent = procs[j].parent_pid.unwrap();
            let m = choose|m: int| #[trigger] is_candidate(procs, target, m) && procs[m].pid == parent;
            assert(candidate_has_pid(procs, target, parent));
        }
    }
    if is_candidate(procs, target, k) {
        let c = choose|c: int|
            #[trigger] is_candidate(procs, target, c) && forall|j: int|
                0 <= j < c ==> !is_candidate(procs, target, j);
        assert(c == k) by {
            if c > k {
                assert(!is_candidate(procs, target, k));
            }
        }
    }
}

/// `cands` lists, in increasing order, exactly the processes running the target.
pub open spec fn lists_candidates(procs: Seq<RunningProcess>, target: Seq<char>, cands: Seq<usize>) -> bool {
    &&& forall|m: int| 0 <= m < cands.len() ==> is_candidate(procs, target, #[trigger] cands[m] as int)
    &&& forall|m: int, l: int| 0 <= m < l < cands.len() ==> #[trigger] cands[m] < #[trigger] cands[l]
    &&& forall|k: int| #[trigger] is_candidate(procs, target, k) ==> exists|m: int|
        0 <= m < cands.len() && #[trigger] cands[m] == k
}

/// Whether `s` ends in `.exe`.
fn has_exe_suffix(s: &str) -> (b: bool)
    ensures
        b == ends_with_exe(s@),
{
    let n = s.unicode_len();
    n >= 4 && s.get_char(n - 4) == '.' && s.get_char(n - 3) == 'e' && s.get_char(n - 2) == 'x'
        && s.get_char(n - 1) == 'e'
}

/// Whether process `p` runs the target (see `process_matches`).
fn runs_target(target: &str, target_base: &str, p: &RunningProcess) -> (m: bool)
    requires
        target_base@ == without_exe(target@),
    ensures
        m == process_matches(target@, *p),
{
    reveal(process_matches);
    let exe = to_lowercase(p.name.as_str());
    if same_chars(exe.as_str(), target) || same_chars(strip_exe(exe.as_str()), target_base) {
        return true;
    }
    match &p.exe_file_name {
        Some(f) => {
            let file = to_lowercase(f.as_str());
            same_chars(file.as_str(), target) || (has_exe_suffix(file.as_str()) && same_chars(
                strip_exe(file.as_str()),
                target_base,
            ))
        },
        None => false,
    }
}

/// Scans the processes in order: the index of the first one running the
/// target with an active audio session, if any; else the list of all processes
/// running the target.
fn scan_candidates(target: &str, processes: &Vec<RunningProcess>, audio_pids: &HashSet<u32>) -> (r: (
    Option<usize>,
    Vec<usize>,
))
    ensures
        match r.0 {
            Some(k) => is_audio_candidate(processes@, target@, audio_pids@, k as int) && forall|j: int|
                0 <= j < k ==> !is_audio_candidate(processes@, target@, audio_pids@, j),
            None => (forall|k: int| !#[trigger] is_audio_candidate(processes@, target@, audio_pids@, k))
                && lists_candidates(processes@, target@, r.1@),
        },
{
    let ghost procs = processes@;
    let target_base = strip_exe(target);
    let n = processes.len();
    let mut cands: Vec<usize> = Vec::new();
    let mut i: usize = 0;
    while i < n
        invariant
            n == procs.len(),
            procs == processes@,
            target_base@ == without_exe(target@),
            i <= n,
            forall|m: int| 0 <= m < cands@.len() ==> is_candidate(procs, target@, #[trigger] cands@[m] as int),
            forall|m: int| 0 <= m < cands@.len() ==> #[trigger] cands@[m] < i,
            forall|m: int, l: int| 0 <= m < l < cands@.len() ==> #[trigger] cands@[m] < #[trigger] cands@[l],
            forall|k: int| 0 <= k < i && #[trigger] is_candidate(procs, target@, k) ==> exists|m: int|
                0 <= m < cands@.len() && #[trigger] cands@[m] == k,
            forall|k: int| 0 <= k < i ==> !#[trigger] is_audio_candidate(procs, target@, audio_pids@, k),
        decreases n - i,
    {
        if runs_target(target, target_base, &processes[i]) {
            let p = processes[i].pid;
            if contains_pid(audio_pids, p) {
                return (Some(i), cands);
            }
            let ghost old_cands = cands@;
            cands.push(i);
            proof {
                assert(cands@[cands@.len() - 1] == i);
                assert forall|k: int| 0 <= k < i + 1 && #[trigger] is_candidate(procs, target@, k) implies exists|m: int|
                    0 <= m < cands@.len() && #[trigger] cands@[m] == k by {
                    if k < i {
                        let m = choose|m: int| 0 <= m < old_cands.len() && #[trigger] old_cands[m] == k;
                        assert(cands@[m] == k);
                    }
                }
            }
        }
        i = i + 1;
    }
    (None, cands)
}

/// Whether some process running the target has process id `pid`.
fn has_candidate_pid(
    processes: &Vec<RunningProcess>,
    cands: &Vec<usize>,
    pid: u32,
    Ghost(target): Ghost<Seq<char>>,
) -> (found: bool)
    requires
        lists_candidates(processes@, target, cands@),
    ensures
        found == candidate_has_pid(processes@, target, pid),
{
    let ghost procs = processes@;
    let nc = cands.len();
    let mut l: usize = 0;
    while l < nc
        invariant
            nc == cands@.len(),
            procs == processes@,
            lists_candidates(procs, target, cands@),
            l <= nc,
            forall|m: int| 0 <= m < l ==> procs[#[trigger] cands@[m] as int].pid != pid,
        decreases nc - l,
    {
        if processes[cands[l]].pid == pid {
            assert(is_candidate(procs, target, cands@[l as int] as int));
            return true;
        }
        l = l + 1;
    }
    proof {
        assert forall|j: int| #[trigger] is_candidate(procs, target, j) implies procs[j].pid != pid by {
            let m = choose|m: int| 0 <= m < nc && #[trigger] cands@[m] == j;
            assert(procs[cands@[m] as int].pid != pid);
        }
    }
    false
}

/// The first root of the target's process tree, if any.
fn first_root(processes: &Vec<RunningProcess>, cands: &Vec<usize>, Ghost(target): Ghost<Seq<char>>) -> (r:
    Option<usize>)
    requires
        lists_candidates(processes@, target, cands@),
    ensures
        match r {
            Some(k) => is_root_candidate(processes@, target, k as int) && forall|j: int|
                0 <= j < k ==> !is_root_candidate(processes@, target, j),
            None => forall|k: int| !#[trigger] is_root_candidate(processes@, target, k),
        },
{
    let ghost procs = processes@;
    let nc = cands.len();
    let mut c: usize = 0;
    while c < nc
        invariant
            nc == cands@.len(),
            procs == processes@,
            lists_candidates(procs, target, cands@),
            c <= nc,
            forall|m: int| 0 <= m < c ==> !is_root_candidate(procs, target, #[trigger] cands@[m] as int),
        decreases nc - c,
    {
        let k = cands[c];
        let root = match processes[k].parent_pid {
            None => true,
            Some(parent) => !has_candidate_pid(processes, cands, parent, Ghost(target)),
        };
        if root {
            proof {
                assert(is_root_candidate(procs, target, k as int));
                assert forall|j: int| 0 <= j < k implies !is_root_candidate(procs, target, j) by {
                    if is_root_candidate(procs, target, j) {
                        let m = choose|m: int| 0 <= m < nc && #[trigger] cands@[m] == j;
                        if m >= c {
                            if m > c {
                                assert(cands@[c as int] < cands@[m]);
                            }
                        }
                    }
                }
            }
            return Some(k);
        }
        c = c + 1;
    }
    proof {
        assert forall|k: int| !#[trigger] is_root_candidate(procs, target, k) by {
            if is_root_candidate(procs, target, k) {
                let m = choose|m: int| 0 <= m < nc && #[trigger] cands@[m] == k;
            }
        }
    }
    None
}

/// The process id to capture for the lowercase target executable name
/// `target` (see `selected_pid`).
pub fn select_pid_by_name(target: &str, processes: &Vec<RunningProcess>, audio_pids: &HashSet<u32>) -> (pid:
    Option<u32>)
    ensures
        pid == selected_pid(processes@, target@, audio_pids@),
{
    let ghost procs = processes@;
    let ghost t = target@;
    let (audio, cands) = scan_candidates(target, processes, audio_pids);
    if let Some(k) = audio {
        proof {
            let c = choose|c: int|
                #[trigger] is_audio_candidate(procs, t, audio_pids@, c) && forall|j: int|
                    0 <= j < c ==> !is_audio_candidate(procs, t, audio_pids@, j);
            assert(c == k) by {
                if c < k {
                } else if c > k {
                }
            }
        }
        return Some(processes[k].pid);
    }
    let root = first_root(processes, &cands, Ghost(t));
    if let Some(k) = root {
        proof {
            let c = choose|c: int|
                #[trigger] is_root_candidate(procs, t, c) && forall|j: int|
                    0 <= j < c ==> !is_root_candidate(procs, t, j);
            assert(c == k) by {
                if c < k {
                } else if c > k {
                }
            }
        }
        return Some(processes[k].pid);
    }
    if cands.len() > 0 {
        let k = cands[0];
        proof {
            let c = choose|c: int|
                #[trigger] is_candidate(procs, t, c) && forall|j: int|
                    0 <= j < c ==> !is_candidate(procs, t, j);
            assert forall|j: int| 0 <= j < k implies !is_candidate(procs, t, j) by {
                if is_candidate(procs, t, j) {
                    let m = choose|m: int| 0 <= m < cands@.len() && #[trigger] cands@[m] == j;
                    if m > 0 {
                        assert(cands@[0] < cands@[m]);
                    }
                }
            }
            assert(is_candidate(procs, t, k as int));
            assert(c == k) by {
                if c < k {
                } else if c > k {
                }
            }
        }
        Some(processes[k].pid)
    } else {
        proof {
            assert forall|k: int| !#[trigger] is_candidate(procs, t, k) by {
                if is_candidate(procs, t, k) {
                    let m = choose|m: int| 0 <= m < cands@.len() && #[trigger] cands@[m] == k;
                }
            }
        }
        None
    }
}

/// `p` without its trailing `/` separators.
pub open spec fn without_trailing_slashes(p: Seq<char>) -> Seq<char>
    decreases p.len(),
{
    if p.len() > 0 && p.last() == '/' {
        without_trailing_slashes(p.drop_last())
    } else {
        p
    }
}

/// The characters of `p` after its last `/` (all of `p` when it has none).
pub open spec fn after_last_slash(p: Seq<char>) -> Seq<char>
    decreases p.len(),
{
    if p.len() == 0 {
        p
    } else if p.last() == '/' {
        Seq::empty()
    } else {
        after_last_slash(p.drop_last()).push(p.last())
    }
}

/// The last `/`-separated component of `p`, trailing separators ignored.
pub open spec fn last_slash_component(p: Seq<char>) -> Seq<char> {
    after_last_slash(without_trailing_slashes(p))
}

/// A path that every platform splits at `/`: it has no backslash and does
/// not start with `//`, so it carries no Windows verbatim prefix (under
/// which `/` is no separator) nor any other prefix that starts with two
/// separators.
pub open spec fn splits_at_slash(p: Seq<char>) -> bool {
    &&& !p.contains('\\')
    &&& !(p.len() >= 2 && p[0] == '/' && p[1] == '/')
}

/// A path whose file name every platform finds the same way: it splits at
/// `/` (see `splits_at_slash`), has no `:` (so no drive prefix), and its last
/// `/`-separated component is a non-empty name other than `.` and `..`.
pub open spec fn is_portable_path(p: Seq<char>) -> bool {
    let c = last_slash_component(p);
    &&& splits_at_slash(p)
    &&& !p.contains(':')
    &&& c.len() > 0
    &&& c != seq!['.']
    &&& c != seq!['.', '.']
}

/// Calls `Path::new`, `Path::file_name` and `OsStr::to_str` on `path` (the
/// first and last only convert; they stay in one item because the `OsStr`
/// between them belongs to `std::ffi`, which the library does not use).
/// Claimed, as `Path::file_name` and `std::path::Prefix` are documented: a
/// file name is a non-empty component; where the path splits at `/` on every
/// platform (see `splits_at_slash`) it holds no `/`; for a portable path (see
/// `is_portable_path`) it is the last `/`-separated component. Under a Windows
/// verbatim prefix `/` is no separator, so a file name found there may hold
/// one; what such paths and other non-portable paths give depends on the
/// platform and is left unsaid.
#[verifier::external_body]
fn path_file_name(path: &str) -> (name: Option<String>)
    ensures
        name.is_some() ==> name.unwrap()@.len() > 0,
        name.is_some() && splits_at_slash(path@) ==> !name.unwrap()@.contains('/'),
        is_portable_path(path@) ==> name.is_some() && name.unwrap()@ == last_slash_component(
            path@,
        ),
{
    match std::path::Path::new(path).file_name() {
        Some(f) => match f.to_str() {
            Some(t) => Some(t.to_string()),
            None => None,
        },
        None => None,
    }
}

/// The lowercase name matched for an application given as `target_app`: the
/// file name of its path, where it has one, else the whole string.
pub open spec fn capture_target(file_name: Option<Seq<char>>, target_app: Seq<char>) -> Seq<char> {
    spec_to_lowercase(
        match file_name {
            Some(f) => f,
            None => target_app,
        },
    )
}

/// The process id to capture for an application given by name or path, once
/// the path's file name is known (see `capture_target` and
/// `select_pid_by_name`).
pub fn select_pid_for_file_name(
    file_name: Option<&str>,
    target_app: &str,
    processes: &Vec<RunningProcess>,
    audio_pids: &HashSet<u32>,
) -> (pid: Option<u32>)
    ensures
        pid == selected_pid(
            processes@,
            capture_target(
                match file_name {
                    Some(f) => Some(f@),
                    None => None,
                },
                target_app@,
            ),
            audio_pids@,
        ),
{
    let target_clean = match file_name {
        Some(f) => to_lowercase(f),
        None => to_lowercase(target_app),
    };
    select_pid_by_name(target_clean.as_str(), processes, audio_pids)
}

/// The process id to capture for the application `target_app` (a name or a
/// path): its file name goes to `select_pid_for_file_name`. For a portable
/// path that is its last `/`-separated component; elsewhere it is what the
/// platform's path rules find: a non-empty name (without `/` where the path
/// splits at `/`), or none.
pub fn select_pid_for_app(target_app: &str, processes: &Vec<RunningProcess>, audio_pids: &HashSet<u32>) -> (pid:
    Option<u32>)
    ensures
        is_portable_path(target_app@) ==> pid == selected_pid(
            processes@,
            capture_target(Some(last_slash_component(target_app@)), target_app@),
            audio_pids@,
        ),
        exists|file_name: Option<Seq<char>>|
            (file_name matches Some(f) ==> f.len() > 0 && (splits_at_slash(target_app@)
                ==> !f.contains('/'))) && pid == selected_pid(
                processes@,
                #[trigger] capture_target(file_name, target_app@),
                audio_pids@,
            ),
{
    let file = path_file_name(target_app);
    match file {
        Some(f) => {
            let pid = select_pid_for_file_name(Some(f.as_str()), target_app, processes, audio_pids);
            assert(pid == selected_pid(processes@, capture_target(Some(f@), target_app@), audio_pids@));
            pid
        },
        None => {
            let pid = select_pid_for_file_name(None, target_app, processes, audio_pids);
            assert(pid == selected_pid(processes@, capture_target(None, target_app@), audio_pids@));
            pid
        },
    }
}

} // verus!
