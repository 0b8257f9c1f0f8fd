//! Which shells there are.
//!
//! Whoever asks the system hands over what it said: whether PowerShell Core
//! was found and what `wsl.exe -l -q` wrote.
use crate::app::profile::{Host, Platform, Profile, ShellKind};
#[allow(unused_imports)]
use crate::app::profile::{spawn_of, KindView};
#[allow(unused_imports)]
use crate::app::profile_registry::has_profile;
use crate::app::types::{IdCounter, ProfileId};
#[allow(unused_imports)]
use crate::app::types::issued_after;
use crate::text::{chars_of, find, slice_of, string_of, strip, trim, utf16_lossy};
#[allow(unused_imports)]
use crate::text::{first_place, lossy_text, stripped_of, texts, trimmed};
use vstd::prelude::*;

verus! {

/// The first profile of a kind from place `i` on, or the number of profiles.
pub open spec fn first_of_kind(profiles: Seq<Profile>, kind: KindView, i: int) -> int
    decreases profiles.len() - i,
{
    if i < 0 || i >= profiles.len() {
        profiles.len() as int
    } else if profiles[i].shell_kind@ == kind {
        i
    } else {
        first_of_kind(profiles, kind, i + 1)
    }
}

/// PowerShell Core is preferred, then Windows PowerShell, then what comes
/// first.
pub open spec fn preferred(profiles: Seq<Profile>) -> int {
    let pwsh = first_of_kind(profiles, KindView::Pwsh, 0);
    let power_shell = first_of_kind(profiles, KindView::PowerShell, 0);
    if pwsh < profiles.len() {
        pwsh
    } else if power_shell < profiles.len() {
        power_shell
    } else {
        0
    }
}

/// Chooses the default profile.
pub fn select_default(profiles: &[Profile]) -> (id: ProfileId)
    requires
        profiles@.len() > 0,
    ensures
        0 <= preferred(profiles@) < profiles@.len(),
        id == profiles@[preferred(profiles@)].id,
{
    let mut i: usize = 0;
    while i < profiles.len()
        invariant
            i <= profiles@.len(),
            first_of_kind(profiles@, KindView::Pwsh, 0) == first_of_kind(
                profiles@,
                KindView::Pwsh,
                i as int,
            ),
        decreases profiles@.len() - i,
    {
        if matches!(profiles[i].shell_kind, ShellKind::Pwsh) {
            return profiles[i].id;
        }
        i += 1;
    }
    let mut k: usize = 0;
    while k < profiles.len()
        invariant
            k <= profiles@.len(),
            first_of_kind(profiles@, KindView::Pwsh, 0) == profiles@.len(),
            first_of_kind(profiles@, KindView::PowerShell, 0) == first_of_kind(
                profiles@,
                KindView::PowerShell,
                k as int,
            ),
        decreases profiles@.len() - k,
    {
        if matches!(profiles[k].shell_kind, ShellKind::PowerShell) {
            return profiles[k].id;
        }
        k += 1;
    }
    profiles[0].id
}

/// Name and kind of a profile.
#[verifier::ext_equal]
pub struct Entry {
    pub name: Seq<char>,
    pub kind: KindView,
}

/// The distributions' profiles.
pub open spec fn wsl_entries(distros: Seq<Seq<char>>) -> Seq<Entry> {
    distros.map_values(
        |distro: Seq<char>|
            Entry { name: distro + " (WSL)"@, kind: KindView::Wsl { distro } },
    )
}

/// The profiles of a platform: what is always there, then PowerShell Core if
/// it was found, then, on Windows, the distributions.
pub open spec fn platform_entries(platform: Platform, pwsh: bool, distros: Seq<Seq<char>>) -> Seq<
    Entry,
> {
    let found = if pwsh {
        seq![Entry { name: "PowerShell"@, kind: KindView::Pwsh }]
    } else {
        Seq::empty()
    };
    match platform {
        Platform::Windows => seq![
            Entry { name: "Command Prompt"@, kind: KindView::CommandPrompt },
            Entry { name: "Windows PowerShell"@, kind: KindView::PowerShell },
        ] + found + wsl_entries(distros),
        Platform::Unix => seq![Entry { name: "Default Shell"@, kind: KindView::UnixShell }] + found,
    }
}

/// Profiles have these names and kinds, start what their kinds say, and have
/// the identities that a counter gives out one after the other.
pub open spec fn are_entries(
    profiles: Seq<Profile>,
    entries: Seq<Entry>,
    host: &Host,
    first_id: u64,
) -> bool {
    &&& profiles.len() == entries.len()
    &&& forall|i: int|
        0 <= i < entries.len() ==> {
            &&& (#[trigger] profiles[i]).name@ == entries[i].name
            &&& profiles[i].shell_kind@ == entries[i].kind
            &&& profiles[i].spawn_config@ == spawn_of(entries[i].kind, host)
            &&& profiles[i].id.number() == issued_after(first_id, i)
        }
}

fn add_profile(
    profiles: &mut Vec<Profile>,
    name: String,
    kind: ShellKind,
    host: &Host,
    ids: &mut IdCounter,
    Ghost(entries): Ghost<Seq<Entry>>,
    Ghost(first_id): Ghost<u64>,
)
    requires
        are_entries(old(profiles)@, entries, host, first_id),
        old(ids).upcoming() == issued_after(first_id, entries.len() as int),
    ensures
        are_entries(
            final(profiles)@,
            entries.push(Entry { name: name@, kind: kind@ }),
            host,
            first_id,
        ),
        final(ids).upcoming() == issued_after(first_id, entries.len() as int + 1),
{
    proof {
        crate::app::types::law_counter_steps(first_id, entries.len() as int);
    }
    profiles.push(Profile::new(name, kind, host, ids));
}

/// The profiles of a platform.
pub fn build_platform_profiles(
    host: &Host,
    pwsh: bool,
    distros: &Vec<String>,
    ids: &mut IdCounter,
) -> (profiles: Vec<Profile>)
    ensures
        are_entries(
            profiles@,
            platform_entries(host.platform, pwsh, texts(distros@)),
            host,
            old(ids).upcoming(),
        ),
        final(ids).upcoming() == issued_after(old(ids).upcoming(), profiles@.len() as int),
{
    let ghost first_id = ids.upcoming();
    proof {
        crate::app::types::law_counter_steps(first_id, 0);
    }
    let mut profiles: Vec<Profile> = Vec::new();
    let ghost mut entries: Seq<Entry> = Seq::empty();
    match host.platform {
        Platform::Windows => {
            let name = "Command Prompt".to_string();
            let kind = ShellKind::CommandPrompt;
            add_profile(&mut profiles, name, kind, host, ids, Ghost(entries), Ghost(first_id));
            proof {
                entries =
                entries.push(Entry { name: "Command Prompt"@, kind: KindView::CommandPrompt });
            }
            let name = "Windows PowerShell".to_string();
            let kind = ShellKind::PowerShell;
            add_profile(&mut profiles, name, kind, host, ids, Ghost(entries), Ghost(first_id));
            proof {
                entries =
                entries.push(Entry { name: "Windows PowerShell"@, kind: KindView::PowerShell });
            }
        },
        Platform::Unix => {
            let name = "Default Shell".to_string();
            let kind = ShellKind::UnixShell;
            add_profile(&mut profiles, name, kind, host, ids, Ghost(entries), Ghost(first_id));
            proof {
                entries =
                entries.push(Entry { name: "Default Shell"@, kind: KindView::UnixShell });
            }
        },
    }
    if pwsh {
        let name = "PowerShell".to_string();
        let kind = ShellKind::Pwsh;
        add_profile(&mut profiles, name, kind, host, ids, Ghost(entries), Ghost(first_id));
        proof {
            entries = entries.push(Entry { name: "PowerShell"@, kind: KindView::Pwsh });
        }
    }
    let ghost without = entries;
    if matches!(host.platform, Platform::Windows) {
        let mut i: usize = 0;
        let ghost all = wsl_entries(texts(distros@));
        assert(entries =~= without + all.take(0));
        while i < distros.len()
            invariant
                i <= distros@.len(),
                all == wsl_entries(texts(distros@)),
                all.len() == distros@.len(),
                entries == without + all.take(i as int),
                are_entries(profiles@, entries, host, first_id),
                ids.upcoming() == issued_after(first_id, entries.len() as int),
            decreases distros@.len() - i,
        {
            let distro = distros[i].clone();
            let mut chars = chars_of(distro.as_str());
            let mut suffix = chars_of(" (WSL)");
            chars.append(&mut suffix);
            let name = string_of(&chars);
            let ghost entry = Entry { name: name@, kind: KindView::Wsl { distro: distro@ } };
            assert(texts(distros@)[i as int] == distro@);
            assert(name@ =~= distro@ + " (WSL)"@);
            let kind = ShellKind::Wsl { distro };
            add_profile(&mut profiles, name, kind, host, ids, Ghost(entries), Ghost(first_id));
            proof {
                entries = entries.push(entry);
                assert(entries =~= without + all.take(i + 1));
            }
            i += 1;
        }
        assert(all.take(i as int) =~= all);
    }
    assert(entries =~= platform_entries(host.platform, pwsh, texts(distros@)));
    profiles
}

/// All profiles and the identity of the default one, from what was found.
pub fn detect_profiles(host: &Host, pwsh: bool, distros: &Vec<String>, ids: &mut IdCounter) -> (
    found: (Vec<Profile>, ProfileId))
    ensures
        are_entries(
            found.0@,
            platform_entries(host.platform, pwsh, texts(distros@)),
            host,
            old(ids).upcoming(),
        ),
        final(ids).upcoming() == issued_after(old(ids).upcoming(), found.0@.len() as int),
        found.0@.len() > 0,
        found.1 == found.0@[preferred(found.0@)].id,
        has_profile(found.0@, found.1),
{
    let profiles = build_platform_profiles(host, pwsh, distros, ids);
    let id = select_default(profiles.as_slice());
    assert(profiles@[preferred(profiles@)].id == id);
    (profiles, id)
}

/// The number in two bytes, the lower first.
pub open spec fn little_endian(low: u8, high: u8) -> u16 {
    (low + high * 256) as u16
}

/// The bytes after a byte order mark, if there is one.
pub open spec fn without_mark(bytes: Seq<u8>) -> Seq<u8> {
    if bytes.len() >= 2 && bytes[0] == 0xff && bytes[1] == 0xfe {
        bytes.skip(2)
    } else {
        bytes
    }
}

/// The UTF-16 units in bytes. An odd byte at the end is left out.
pub open spec fn units_of(bytes: Seq<u8>) -> Seq<u16> {
    Seq::new(
        (bytes.len() / 2) as nat,
        |i: int| little_endian(bytes[2 * i], bytes[2 * i + 1]),
    )
}

/// Decodes UTF-16 of the byte order that Windows uses. Nothing, if there is no
/// text.
pub fn decode_utf16le(bytes: &[u8]) -> (text: Option<String>)
    ensures
        match text {
            Some(text) => {
                &&& units_of(without_mark(bytes@)).len() > 0
                &&& text@ == lossy_text(units_of(without_mark(bytes@)), 0)
            },
            None => units_of(without_mark(bytes@)).len() == 0,
        },
{
    let start: usize = if bytes.len() >= 2 && bytes[0] == 0xff && bytes[1] == 0xfe {
        2
    } else {
        0
    };
    let ghost body = without_mark(bytes@);
    let count: usize = (bytes.len() - start) / 2;
    if count == 0 {
        return None;
    }
    let mut units: Vec<u16> = Vec::new();
    let mut i: usize = 0;
    while i < count
        invariant
            i <= count,
            count == (bytes@.len() - start) / 2,
            start <= bytes@.len(),
            bytes.len() == bytes@.len(),
            body == bytes@.skip(start as int),
            units@ == units_of(body).take(i as int),
        decreases count - i,
    {
        let low: u8 = bytes[start + 2 * i];
        let high: u8 = bytes[start + 2 * i + 1];
        units.push(low as u16 + high as u16 * 256);
        i += 1;
        assert(units@ =~= units_of(body).take(i as int));
    }
    assert(units@ =~= units_of(body));
    Some(utf16_lossy(&units))
}

/// A line without white space and zero characters around it.
pub open spec fn tidy(line: Seq<char>) -> Seq<char> {
    trimmed(stripped_of(trimmed(line), '\0'))
}

/// The tidied lines of a text but for the empty ones.
pub open spec fn tidy_lines(text: Seq<char>, from: int) -> Seq<Seq<char>>
    decreases text.len() + 1 - from,
    when 0 <= from
{
    if from > text.len() {
        Seq::empty()
    } else {
        let end = line_end(text, from);
        let line = tidy(text.subrange(from, end));
        let own = if line.len() > 0 {
            seq![line]
        } else {
            Seq::empty()
        };
        own + tidy_lines(text, end + 1)
    }
}

/// Where the line that begins at `from` ends.
pub open spec fn line_end(text: Seq<char>, from: int) -> int {
    let at = first_place(text, '\n', from);
    if from <= at <= text.len() {
        at
    } else {
        text.len() as int
    }
}

/// The names in what `wsl.exe -l -q` writes: one a line.
pub fn parse_wsl_quiet_output(output: &str) -> (names: Vec<String>)
    ensures
        texts(names@) == tidy_lines(output@, 0),
{
    let chars = chars_of(output);
    let mut names: Vec<String> = Vec::new();
    let mut from: usize = 0;
    assert(texts(names@) + tidy_lines(output@, 0) =~= tidy_lines(output@, 0));
    while from < chars.len()
        invariant
            chars@ == output@,
            from <= chars.len(),
            texts(names@) + tidy_lines(output@, from as int) == tidy_lines(output@, 0),
        decreases chars.len() - from,
    {
        let end: usize = find(&chars, '\n', from);
        let part = slice_of(&chars, from, end);
        let line = trim(&strip(&trim(&part), '\0'));
        let ghost before = texts(names@);
        let ghost rest = tidy_lines(output@, end + 1);
        assert(tidy_lines(output@, from as int) == (if line@.len() > 0 {
            seq![line@]
        } else {
            Seq::empty()
        }) + rest);
        if line.len() > 0 {
            let name = string_of(&line);
            names.push(name);
            assert(texts(names@) =~= before.push(line@));
            assert(texts(names@) + rest =~= before + (seq![line@] + rest));
        } else {
            assert(before + rest =~= before + (Seq::<Seq<char>>::empty() + rest));
        }
        if end < chars.len() {
            from = end + 1;
        } else {
            proof {
                lemma_last_line(output@, end as int);
                lemma_last_line(output@, end + 1);
            }
            from = end;
        }
    }
    proof {
        lemma_last_line(output@, from as int);
    }
    assert(texts(names@) + Seq::<Seq<char>>::empty() =~= texts(names@));
    names
}

proof fn lemma_last_line(text: Seq<char>, from: int)
    requires
        text.len() <= from,
    ensures
        tidy_lines(text, from) == Seq::<Seq<char>>::empty(),
{
    if from == text.len() {
        let line = text.subrange(from, from);
        assert(line =~= Seq::<char>::empty());
        assert(trimmed(line) =~= line);
        assert(stripped_of(line, '\0') =~= line);
        assert(line_end(text, from) == from);
        assert(tidy_lines(text, from + 1) =~= Seq::<Seq<char>>::empty());
        assert(tidy_lines(text, from) =~= Seq::<Seq<char>>::empty());
    }
}

proof fn lemma_first_of_kind(profiles: Seq<Profile>, kind: KindView, i: int)
    requires
        0 <= i <= profiles.len(),
    ensures
        i <= first_of_kind(profiles, kind, i) <= profiles.len(),
        first_of_kind(profiles, kind, i) < profiles.len() ==> profiles[first_of_kind(
            profiles,
            kind,
            i,
        )].shell_kind@ == kind,
        forall|j: int|
            i <= j < first_of_kind(profiles, kind, i) ==> (#[trigger] profiles[j]).shell_kind@
                != kind,
    decreases profiles.len() - i,
{
    if i < profiles.len() && profiles[i].shell_kind@ != kind {
        lemma_first_of_kind(profiles, kind, i + 1);
    }
}

/// The default profile is one of PowerShell Core if there is any; if not, one of
/// Windows PowerShell if there is any; if not, the first. Of its kind it is the
/// first.
pub proof fn law_default_profile(profiles: Seq<Profile>, k: int)
    requires
        0 <= k < profiles.len(),
    ensures
        ({
            let chosen = profiles[preferred(profiles)].shell_kind@;
            let any_core = exists|i: int|
                0 <= i < profiles.len() && (#[trigger] profiles[i]).shell_kind@ is Pwsh;
            let any_windows = exists|i: int|
                0 <= i < profiles.len() && (#[trigger] profiles[i]).shell_kind@ is PowerShell;
            &&& 0 <= preferred(profiles) < profiles.len()
            &&& chosen is Pwsh <==> any_core
            &&& !any_core && any_windows ==> chosen is PowerShell
            &&& !any_core && !any_windows ==> preferred(profiles) == 0
            &&& any_core || any_windows ==> (profiles[k].shell_kind@ == chosen ==> preferred(
                profiles,
            ) <= k)
        }),
{
    lemma_first_of_kind(profiles, KindView::Pwsh, 0);
    lemma_first_of_kind(profiles, KindView::PowerShell, 0);
    if first_of_kind(profiles, KindView::Pwsh, 0) == profiles.len() {
        assert forall|i: int| 0 <= i < profiles.len() implies !((
        #[trigger] profiles[i]).shell_kind@ is Pwsh) by {}
    }
}

/// The profiles of a platform. Windows always has the command prompt and Windows
/// PowerShell, Unix the user's shell. PowerShell Core comes next, exactly if it was
/// found. On Windows each distribution has a profile with its name, in the order
/// in which they are given; and there are no others.
pub proof fn law_profiles_of_a_platform(
    platform: Platform,
    pwsh: bool,
    distros: Seq<Seq<char>>,
    k: int,
)
    ensures
        ({
            let entries = platform_entries(platform, pwsh, distros);
            let core = if pwsh {
                1int
            } else {
                0
            };
            let fixed = if platform is Windows {
                2int
            } else {
                1
            };
            &&& platform is Windows ==> entries.len() == 2 + core + distros.len()
            &&& platform is Unix ==> entries.len() == 1 + core
            &&& platform is Windows ==> entries[0].kind is CommandPrompt && entries[1].kind
                is PowerShell
            &&& platform is Windows ==> entries[0].name == "Command Prompt"@ && entries[1].name
                == "Windows PowerShell"@
            &&& platform is Unix ==> entries[0].kind is UnixShell && entries[0].name
                == "Default Shell"@
            &&& pwsh ==> entries[fixed].kind is Pwsh && entries[fixed].name == "PowerShell"@
            &&& platform is Windows && 0 <= k < distros.len() ==> {
                let entry = entries[2 + core + k];
                &&& entry.kind == KindView::Wsl { distro: distros[k] }
                &&& entry.name == distros[k] + " (WSL)"@
            }
        }),
{
}

/// Each unit is made of two bytes, the lower one first; a byte order mark at the
/// start is no text.
pub proof fn law_units_are_pairs_of_bytes(bytes: Seq<u8>, i: int)
    ensures
        ({
            let units = units_of(bytes);
            &&& 2 * units.len() <= bytes.len() <= 2 * units.len() + 1
            &&& 0 <= i < units.len() ==> units[i] % 256 == bytes[2 * i] && units[i] / 256
                == bytes[2 * i + 1]
        }),
        without_mark(seq![0xffu8, 0xfeu8] + bytes) == bytes,
        bytes.len() >= 2 && !(bytes[0] == 0xff && bytes[1] == 0xfe) ==> without_mark(bytes)
            == bytes,
        bytes.len() < 2 ==> without_mark(bytes) == bytes,
{
    assert((seq![0xffu8, 0xfeu8] + bytes).skip(2) =~= bytes);
}

/// The name in a line is what is left without white space, then zero
/// characters, then white space at its ends.
pub proof fn law_name_in_a_line(
    a: Seq<char>,
    zeros: Seq<char>,
    inner: Seq<char>,
    name: Seq<char>,
    inner_end: Seq<char>,
    zeros_end: Seq<char>,
    b: Seq<char>,
)
    requires
        forall|i: int| 0 <= i < a.len() ==> crate::text::white_space(#[trigger] a[i]),
        forall|i: int| 0 <= i < b.len() ==> crate::text::white_space(#[trigger] b[i]),
        forall|i: int| 0 <= i < inner.len() ==> crate::text::white_space(#[trigger] inner[i]),
        forall|i: int|
            0 <= i < inner_end.len() ==> crate::text::white_space(#[trigger] inner_end[i]),
        forall|i: int| 0 <= i < zeros.len() ==> #[trigger] zeros[i] == '\0',
        forall|i: int| 0 <= i < zeros_end.len() ==> #[trigger] zeros_end[i] == '\0',
        zeros.len() > 0 || inner.len() == 0,
        zeros_end.len() > 0 || inner_end.len() == 0,
        name.len() > 0,
        !crate::text::white_space(name[0]) && name[0] != '\0',
        !crate::text::white_space(name.last()) && name.last() != '\0',
    ensures
        tidy(a + (zeros + (inner + name + inner_end) + zeros_end) + b) == name,
{
    let middle = inner + name + inner_end;
    let outer = zeros + middle + zeros_end;
    crate::text::law_trimming_takes_padding_away(inner, name, inner_end);
    assert(middle[0] == if inner.len() > 0 {
        inner[0]
    } else {
        name[0]
    });
    assert(middle.last() == if inner_end.len() > 0 {
        inner_end[inner_end.len() - 1]
    } else {
        name.last()
    });
    assert(!crate::text::white_space('\0'));
    crate::text::law_stripping_takes_ends_away(zeros, middle, zeros_end, '\0');
    assert(outer[0] == if zeros.len() > 0 {
        zeros[0]
    } else {
        middle[0]
    });
    assert(outer.last() == if zeros_end.len() > 0 {
        zeros_end[zeros_end.len() - 1]
    } else {
        middle.last()
    });
    crate::text::law_trimming_takes_padding_away(a, outer, b);
}

proof fn lemma_first_place_behind(a: Seq<char>, b: Seq<char>, ch: char, i: int)
    requires
        0 <= i <= b.len(),
    ensures
        first_place(a + b, ch, a.len() + i) == a.len() + first_place(b, ch, i),
    decreases b.len() - i,
{
    if i < b.len() {
        assert((a + b)[a.len() + i] == b[i]);
        lemma_first_place_behind(a, b, ch, i + 1);
    }
}

proof fn lemma_lines_behind(a: Seq<char>, b: Seq<char>, from: int)
    requires
        0 <= from,
    ensures
        tidy_lines(a + b, a.len() + from) == tidy_lines(b, from),
    decreases b.len() + 1 - from,
{
    if from <= b.len() {
        lemma_first_place_behind(a, b, '\n', from);
        crate::text::lemma_first_place(b, '\n', from);
        let end = line_end(b, from);
        assert(line_end(a + b, a.len() + from) == a.len() + end);
        assert((a + b).subrange(a.len() + from, a.len() + end) =~= b.subrange(from, end));
        lemma_lines_behind(a, b, end + 1);
    }
}

/// The names in a text are those of its lines, one after the other: the name in
/// the first line, unless the line is empty, and then those in the rest.
pub proof fn law_names_line_by_line(line: Seq<char>, rest: Seq<char>)
    requires
        !line.contains('\n'),
    ensures
        tidy_lines(line + seq!['\n'] + rest, 0) == if tidy(line).len() > 0 {
            seq![tidy(line)] + tidy_lines(rest, 0)
        } else {
            tidy_lines(rest, 0)
        },
        tidy_lines(line, 0) == if tidy(line).len() > 0 {
            seq![tidy(line)]
        } else {
            Seq::empty()
        },
{
    let n = line.len() as int;
    let head = line + seq!['\n'];
    let text = head + rest;
    crate::text::lemma_first_place(text, '\n', 0);
    crate::text::lemma_first_place(line, '\n', 0);
    let at = first_place(text, '\n', 0);
    assert(text[n] == '\n');
    if at < n {
        assert(line[at] == '\n');
        assert(line.contains('\n'));
    }
    assert(at == n);
    assert(text.subrange(0, n) =~= line);
    lemma_lines_behind(head, rest, 0);
    assert(tidy_lines(text, 0) =~= if tidy(line).len() > 0 {
        seq![tidy(line)] + tidy_lines(rest, 0)
    } else {
        tidy_lines(rest, 0)
    });
    if first_place(line, '\n', 0) < n {
        assert(line.contains('\n'));
    }
    assert(line.subrange(0, n) =~= line);
    lemma_last_line(line, n + 1);
    assert(tidy_lines(line, 0) =~= if tidy(line).len() > 0 {
        seq![tidy(line)]
    } else {
        Seq::empty()
    });
}

/// Profiles that are made of entries have their names and kinds, in their order,
/// start what their kinds do, and have identities one after the other.
pub proof fn law_profiles_of_entries(
    profiles: Seq<Profile>,
    entries: Seq<Entry>,
    host: &Host,
    first_id: u64,
    i: int,
)
    requires
        are_entries(profiles, entries, host, first_id),
        0 <= i < entries.len(),
    ensures
        profiles.len() == entries.len(),
        profiles[i].name@ == entries[i].name,
        profiles[i].shell_kind@ == entries[i].kind,
        profiles[i].spawn_config@ == spawn_of(entries[i].kind, host),
        profiles[0].id.number() == first_id,
        first_id + i <= u64::MAX ==> profiles[i].id.number() == first_id + i,
{
    assert(profiles[0].id.number() == issued_after(first_id, 0));
    assert(profiles[i].id.number() == issued_after(first_id, i));
}

} // verus!
