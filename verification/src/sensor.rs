//! Reading drive temperatures out of what the system reports: sysfs
//! millidegree files, hwmon names, `smartctl -A` output and the PowerShell
//! storage cmdlets.
use vstd::prelude::*;
use vstd::string::*;
use crate::text::{
    chars_of, contains_chars, contains_seq, has_prefix, is_space, is_space_char, last_word,
    line_len, lines_of, parse_i64, parse_i64_chars, parse_unsigned, parse_unsigned_chars,
    starts_with_chars, strip_cr, string_of, trailing_word, trim_chars, trim_end, trimmed,
    lemma_line_len_bound, dec, is_digit, law_dec_round_trip, law_parse_i64_round_trip, law_trim_ends,
};

verus! {

broadcast use vstd::string::group_string_axioms;

// ---------------------------------------------------------------------------
// Outside calls
// ---------------------------------------------------------------------------

/// What `String::from_utf8_lossy` makes of a byte sequence.
pub uninterp spec fn utf8_lossy(bytes: Seq<u8>) -> Seq<char>;

/// What `str::to_lowercase` makes of a text.
pub uninterp spec fn lowercase(s: Seq<char>) -> Seq<char>;

/// The bytes of an ASCII text, one character each.
pub open spec fn ascii_chars(bytes: Seq<u8>) -> Seq<char> {
    bytes.map_values(|b: u8| b as char)
}

/// Calls `String::from_utf8_lossy`. Its result is named `utf8_lossy`; for bytes
/// that are all ASCII it is those characters, as ASCII is valid UTF-8 with one
/// byte per character.
#[verifier::external_body]
fn decode_lossy(bytes: &[u8]) -> (s: String)
    ensures
        s@ == utf8_lossy(bytes@),
        (forall|i: int| 0 <= i < bytes@.len() ==> #[trigger] bytes@[i] < 128) ==> s@ == ascii_chars(
            bytes@,
        ),
{
    String::from_utf8_lossy(bytes).into_owned()
}

/// Calls `str::to_lowercase`; its result is named `lowercase`.
#[verifier::external_body]
fn to_lower(s: &str) -> (r: String)
    ensures
        r@ == lowercase(s@),
{
    s.to_lowercase()
}

// ---------------------------------------------------------------------------
// Specifications
// ---------------------------------------------------------------------------

/// `a / b` rounded toward zero, as integer division does.
pub open spec fn div_toward_zero(a: int, b: int) -> int {
    if a >= 0 {
        a / b
    } else {
        -((-a) / b)
    }
}

/// Whole degrees of a millidegree value, limited to `0..=255`.
pub open spec fn celsius_of_milli(mc: int) -> u8 {
    let c: int = div_toward_zero(mc, 1000);
    if c < 0 {
        0
    } else if c > 255 {
        255
    } else {
        c as u8
    }
}

/// The temperature in a sysfs `temp*_input` file: a number of millidegrees.
pub open spec fn millicelsius_reading(text: Seq<char>) -> Option<u8> {
    match parse_i64(trimmed(text)) {
        Some(mc) => Some(celsius_of_milli(mc)),
        None => None,
    }
}

/// A lowercased hwmon name belongs to drive `disk_id`: it names the drive, or
/// it names an NVMe controller and the drive is an NVMe drive.
pub open spec fn hwmon_match(lowered_name: Seq<char>, disk_id: Seq<char>) -> bool {
    contains_seq(lowered_name, disk_id) || (contains_seq(lowered_name, "nvme"@) && has_prefix(
        disk_id,
        "nvme"@,
    ))
}

/// The temperature on one line of `smartctl -A` output, given the line and its
/// lowercase form: a line that mentions a temperature and whose last word is a
/// number from 0 to 255.
pub open spec fn line_temperature(line: Seq<char>, lowered: Seq<char>) -> Option<u8> {
    if contains_seq(lowered, "temperature_celsius"@) || contains_seq(lowered, "temperature"@) {
        match last_word(line) {
            Some(w) => match parse_unsigned(w, 255) {
                Some(v) => Some(v as u8),
                None => None,
            },
            None => None,
        }
    } else {
        None
    }
}

/// The first temperature found on the given lines.
pub open spec fn first_line_temperature(lines: Seq<Seq<char>>) -> Option<u8>
    decreases lines.len(),
{
    if lines.len() == 0 {
        None
    } else {
        match line_temperature(lines[0], lowercase(lines[0])) {
            Some(t) => Some(t),
            None => first_line_temperature(lines.drop_first()),
        }
    }
}

/// The temperature in the output of `smartctl -A`.
pub open spec fn smartctl_reading(stdout: Seq<u8>) -> Option<u8> {
    first_line_temperature(lines_of(utf8_lossy(stdout)))
}

/// The temperature PowerShell prints: the whole output is one number from 0 to 255.
pub open spec fn powershell_reading(stdout: Seq<u8>) -> Option<u8> {
    match parse_unsigned(trimmed(utf8_lossy(stdout)), 255) {
        Some(v) => Some(v as u8),
        None => None,
    }
}

/// The WMI query for the temperature of a disk.
pub open spec fn temperature_query_text(disk_id: Seq<char>) -> Seq<char> {
    "SELECT Temperature FROM MSFT_StorageReliabilityCounter WHERE DeviceId = '"@ + disk_id + "'"@
}

/// The PowerShell command that prints the temperature of a disk.
pub open spec fn powershell_script_text(disk_id: Seq<char>) -> Seq<char> {
    "(Get-PhysicalDisk | Where-Object DeviceId -eq "@ + disk_id
        + " | Get-StorageReliabilityCounter).Temperature"@
}

/// The views of a sequence of character vectors.
pub open spec fn char_views(s: Seq<Vec<char>>) -> Seq<Seq<char>> {
    s.map_values(|v: Vec<char>| v@)
}

/// A sysfs file holding `n * 1000` millidegrees, for `n` up to 255, reads as `n` degrees.
pub proof fn law_millicelsius_round_trip(n: nat)
    requires
        n <= 255,
    ensures
        millicelsius_reading(dec(n * 1000)) == Some(n as u8),
{
    let x: nat = n * 1000;
    law_dec_round_trip(x);
    law_trim_ends(dec(x));
    assert(is_digit(dec(x)[0]) && is_digit(dec(x).last()));
    assert(!is_space(dec(x)[0]) && !is_space(dec(x).last()));
    assert(trimmed(dec(x)) == dec(x));
    assert(dec(x)[0] != '-');
    assert(parse_i64(dec(x)) == Some(x as int));
    assert(x / 1000 == n) by (nonlinear_arith)
        requires
            x == n * 1000,
    ;
}

/// Millidegrees become whole degrees rounded toward zero and kept within
/// `0..=255`: `n * 1000 + r` millidegrees (with `r` below 1000) read as `n`
/// up to 255 and as 255 above; negative readings read as 0.
pub proof fn law_millicelsius_clamp(n: nat, r: nat)
    requires
        r < 1000,
        n * 1000 + r <= 0x7fff_ffff_ffff_ffff,
    ensures
        millicelsius_reading(dec(n * 1000 + r)) == Some(if n <= 255 { n as u8 } else { 255u8 }),
        millicelsius_reading(seq!['-'] + dec(n * 1000 + r)) == Some(0u8),
{
    let x = n * 1000 + r;
    law_dec_round_trip(x);
    law_parse_i64_round_trip(x);
    law_trim_ends(dec(x));
    law_trim_ends(seq!['-'] + dec(x));
    assert(is_digit(dec(x)[0]) && is_digit(dec(x).last()));
    assert((seq!['-'] + dec(x))[0] == '-');
    assert((seq!['-'] + dec(x)).last() == dec(x).last());
    assert(x / 1000 == n) by (nonlinear_arith)
        requires
            x == n * 1000 + r,
            r < 1000,
    ;
}

/// An hwmon sensor belongs to a drive when its lowercased name contains the
/// drive's id; an NVMe drive also owns any sensor whose name contains `nvme`;
/// otherwise the sensor is not the drive's.
pub proof fn law_hwmon_match(lowered: Seq<char>, disk_id: Seq<char>)
    ensures
        contains_seq(lowered, disk_id) ==> hwmon_match(lowered, disk_id),
        has_prefix(disk_id, "nvme"@) && contains_seq(lowered, "nvme"@) ==> hwmon_match(lowered, disk_id),
        !contains_seq(lowered, disk_id) && !has_prefix(disk_id, "nvme"@) ==> !hwmon_match(lowered, disk_id),
        !contains_seq(lowered, disk_id) && !contains_seq(lowered, "nvme"@) ==> !hwmon_match(lowered, disk_id),
{
}

/// A `smartctl` line counts only when its lowercase form mentions a
/// temperature, and then gives the number its last word is, if it is one from
/// 0 to 255.
pub proof fn law_line_temperature(line: Seq<char>, lowered: Seq<char>, n: nat)
    ensures
        !contains_seq(lowered, "temperature"@) && !contains_seq(lowered, "temperature_celsius"@)
            ==> line_temperature(line, lowered) is None,
        contains_seq(lowered, "temperature"@) && last_word(line) == Some(dec(n)) && n <= 255
            ==> line_temperature(line, lowered) == Some(n as u8),
        contains_seq(lowered, "temperature"@) && last_word(line) == Some(dec(n)) && n > 255
            ==> line_temperature(line, lowered) is None,
        last_word(line) is None ==> line_temperature(line, lowered) is None,
{
    law_dec_round_trip(n);
}

/// The temperature of `smartctl` output comes from its first line that has one.
pub proof fn law_first_line_wins(lines: Seq<Seq<char>>)
    ensures
        match first_line_temperature(lines) {
            Some(t) => exists|i: int|
                0 <= i < lines.len() && line_temperature(#[trigger] lines[i], lowercase(lines[i])) == Some(t)
                    && forall|j: int| 0 <= j < i ==> line_temperature(#[trigger] lines[j], lowercase(lines[j])) is None,
            None => forall|i: int| 0 <= i < lines.len() ==> line_temperature(#[trigger] lines[i], lowercase(lines[i])) is None,
        },
    decreases lines.len(),
{
    if lines.len() > 0 {
        law_first_line_wins(lines.drop_first());
        match line_temperature(lines[0], lowercase(lines[0])) {
            Some(t) => {
                assert(line_temperature(lines[0], lowercase(lines[0])) == Some(t));
            },
            None => {
                match first_line_temperature(lines.drop_first()) {
                    Some(t) => {
                        let i = choose|i: int|
                            0 <= i < lines.drop_first().len() && line_temperature(#[trigger] lines.drop_first()[i], lowercase(lines.drop_first()[i])) == Some(t)
                                && forall|j: int| 0 <= j < i ==> line_temperature(#[trigger] lines.drop_first()[j], lowercase(lines.drop_first()[j])) is None;
                        assert(lines[i + 1] == lines.drop_first()[i]);
                        assert forall|j: int| 0 <= j < i + 1 implies line_temperature(#[trigger] lines[j], lowercase(lines[j])) is None by {
                            if j > 0 {
                                assert(lines[j] == lines.drop_first()[j - 1]);
                            }
                        }
                    },
                    None => {
                        assert forall|i: int| 0 <= i < lines.len() implies line_temperature(#[trigger] lines[i], lowercase(lines[i])) is None by {
                            if i > 0 {
                                assert(lines[i] == lines.drop_first()[i - 1]);
                            }
                        }
                    },
                }
            },
        }
    }
}

// ---------------------------------------------------------------------------
// Executable functions
// ---------------------------------------------------------------------------

/// The temperature in whole degrees in the text of a sysfs `temp*_input` file,
/// which holds millidegrees; none when the text is not a number. Values below
/// zero read as 0 and values above 255 °C as 255.
pub fn parse_millicelsius(text: &str) -> (r: Option<u8>)
    ensures
        r == millicelsius_reading(text@),
{
    let chars = chars_of(text);
    let t = trim_chars(&chars);
    match parse_i64_chars(&t) {
        Some(mc) => {
            let m: i128 = mc as i128;
            let c: i128 = if m >= 0 {
                m / 1000
            } else {
                -((-m) / 1000)
            };
            if c < 0 {
                Some(0)
            } else if c > 255 {
                Some(255)
            } else {
                Some(c as u8)
            }
        },
        None => None,
    }
}

/// Whether a directory entry of an NVMe controller is its hwmon directory.
pub fn is_hwmon_entry(name: &str) -> (b: bool)
    ensures
        b == has_prefix(name@, "hwmon"@),
{
    let n = chars_of(name);
    let p = chars_of("hwmon");
    starts_with_chars(&n, &p)
}

/// Whether a lowercased hwmon name belongs to drive `disk_id`.
pub fn hwmon_name_matches(lowered_name: &str, disk_id: &str) -> (b: bool)
    ensures
        b == hwmon_match(lowered_name@, disk_id@),
{
    let name = chars_of(lowered_name);
    let id = chars_of(disk_id);
    let nvme = chars_of("nvme");
    contains_chars(&name, &id) || (contains_chars(&name, &nvme) && starts_with_chars(&id, &nvme))
}

/// Whether the contents of an hwmon `name` file belong to drive `disk_id`; the
/// name is trimmed and lowercased first.
pub fn hwmon_matches_disk(name_text: &str, disk_id: &str) -> (b: bool)
    ensures
        b == hwmon_match(lowercase(trimmed(name_text@)), disk_id@),
{
    let chars = chars_of(name_text);
    let t = trim_chars(&chars);
    let trimmed_name = string_of(&t);
    let lowered = to_lower(trimmed_name.as_str());
    hwmon_name_matches(lowered.as_str(), disk_id)
}

/// The last whitespace-separated word of `s`.
pub fn last_word_chars(s: &[char]) -> (r: Option<Vec<char>>)
    ensures
        match r {
            Some(w) => last_word(s@) == Some(w@),
            None => last_word(s@) is None,
        },
{
    let mut j: usize = s.len();
    assert(s@.take(s.len() as int) =~= s@);
    while j > 0 && is_space_char(s[j - 1])
        invariant
            j <= s.len(),
            trim_end(s@) == trim_end(s@.take(j as int)),
        decreases j,
    {
        assert(s@.take(j as int).drop_last() =~= s@.take(j - 1));
        j = j - 1;
    }
    let ghost t = s@.take(j as int);
    assert(trim_end(t) == t) by {
        if j > 0 {
            assert(t.last() == s@[j - 1]);
        }
    }
    if j == 0 {
        return None;
    }
    let mut i: usize = j;
    assert(t.take(j as int) =~= t);
    assert(t.subrange(j as int, j as int) =~= Seq::<char>::empty());
    while i > 0 && !is_space_char(s[i - 1])
        invariant
            i <= j <= s.len(),
            t == s@.take(j as int),
            trailing_word(t) == trailing_word(t.take(i as int)) + t.subrange(i as int, j as int),
        decreases i,
    {
        assert(t.take(i as int).drop_last() =~= t.take(i - 1));
        assert(t.take(i as int).last() == s@[i - 1]);
        assert(t.subrange(i - 1, j as int) =~= seq![s@[i - 1]] + t.subrange(i as int, j as int));
        assert(trailing_word(t.take(i as int)) == trailing_word(t.take(i - 1)).push(s@[i - 1]));
        assert(trailing_word(t.take(i - 1)).push(s@[i - 1]) + t.subrange(i as int, j as int)
            =~= trailing_word(t.take(i - 1)) + t.subrange(i - 1, j as int));
        i = i - 1;
    }
    assert(trailing_word(t.take(i as int)) =~= Seq::<char>::empty()) by {
        if i > 0 {
            assert(t.take(i as int).last() == s@[i - 1]);
        }
    }
    let mut w: Vec<char> = Vec::new();
    let mut k: usize = i;
    while k < j
        invariant
            i <= k <= j <= s.len(),
            w@ == s@.subrange(i as int, k as int),
        decreases j - k,
    {
        w.push(s[k]);
        assert(s@.subrange(i as int, k + 1) =~= s@.subrange(i as int, k as int).push(s@[k as int]));
        k = k + 1;
    }
    assert(w@ =~= t.subrange(i as int, j as int));
    assert(trailing_word(t) =~= w@);
    Some(w)
}

/// The lines of a text, as `str::lines` splits it.
pub fn split_lines(s: &[char]) -> (v: Vec<Vec<char>>)
    ensures
        char_views(v@) == lines_of(s@),
{
    let mut out: Vec<Vec<char>> = Vec::new();
    let mut pos: usize = 0;
    assert(s@.skip(0) =~= s@);
    assert(char_views(out@) =~= Seq::<Seq<char>>::empty());
    while pos < s.len()
        invariant
            pos <= s.len(),
            lines_of(s@) == char_views(out@) + lines_of(s@.skip(pos as int)),
        decreases s.len() - pos,
    {
        let ghost rest = s@.skip(pos as int);
        let mut j: usize = pos;
        assert(rest.skip(0) =~= rest);
        while j < s.len() && s[j] != '\n'
            invariant
                pos <= j <= s.len(),
                rest == s@.skip(pos as int),
                line_len(rest) == (j - pos) + line_len(s@.skip(j as int)),
            decreases s.len() - j,
        {
            assert(s@.skip(j as int)[0] == s@[j as int]);
            assert(s@.skip(j as int).drop_first() =~= s@.skip(j + 1));
            j = j + 1;
        }
        proof {
            if j < s.len() {
                assert(s@.skip(j as int)[0] == s@[j as int]);
            }
            lemma_line_len_bound(rest);
        }
        let k: usize = j - pos;
        let mut line: Vec<char> = Vec::new();
        let mut m: usize = pos;
        while m < j
            invariant
                pos <= m <= j <= s.len(),
                line@ == s@.subrange(pos as int, m as int),
            decreases j - m,
        {
            line.push(s[m]);
            assert(s@.subrange(pos as int, m + 1) =~= s@.subrange(pos as int, m as int).push(
                s@[m as int],
            ));
            m = m + 1;
        }
        assert(line@ =~= rest.take(k as int));
        let ghost before = char_views(out@);
        if j == s.len() {
            assert(rest =~= rest.take(k as int));
            out.push(line);
            assert(char_views(out@) =~= before.push(rest));
            assert(lines_of(rest) == seq![rest]);
            assert(lines_of(s@.skip(s.len() as int)) =~= Seq::<Seq<char>>::empty()) by {
                assert(s@.skip(s.len() as int).len() == 0);
            }
            pos = j;
            assert(lines_of(s@) =~= char_views(out@) + lines_of(s@.skip(pos as int)));
        } else {
            if line.len() > 0 && line[line.len() - 1] == '\r' {
                line.pop();
            }
            assert(line@ =~= strip_cr(rest.take(k as int)));
            out.push(line);
            assert(char_views(out@) =~= before.push(strip_cr(rest.take(k as int))));
            assert(rest.skip(k + 1) =~= s@.skip(j + 1));
            pos = j + 1;
            assert(lines_of(s@) =~= char_views(out@) + lines_of(s@.skip(pos as int)));
        }
    }
    assert(lines_of(s@.skip(pos as int)) =~= Seq::<Seq<char>>::empty()) by {
        assert(s@.skip(pos as int).len() == 0);
    }
    assert(lines_of(s@) =~= char_views(out@));
    out
}

/// The temperature on one line of `smartctl -A` output, given the line and
/// its lowercase form.
pub fn smartctl_line_temperature(line: &str, lowered: &str) -> (r: Option<u8>)
    ensures
        r == line_temperature(line@, lowered@),
{
    let low = chars_of(lowered);
    let celsius = chars_of("temperature_celsius");
    let temperature = chars_of("temperature");
    if contains_chars(&low, &celsius) || contains_chars(&low, &temperature) {
        let chars = chars_of(line);
        match last_word_chars(&chars) {
            Some(w) => match parse_unsigned_chars(&w, 255) {
                Some(v) => Some(v as u8),
                None => None,
            },
            None => None,
        }
    } else {
        None
    }
}

/// The temperature in the output of `smartctl -A`: the first line that
/// mentions a temperature and ends in a number from 0 to 255.
pub fn parse_smartctl_output(stdout: &[u8]) -> (r: Option<u8>)
    ensures
        r == smartctl_reading(stdout@),
{
    let text = decode_lossy(stdout);
    let chars = chars_of(text.as_str());
    let lines = split_lines(&chars);
    let ghost ls = char_views(lines@);
    let mut i: usize = 0;
    assert(ls.skip(0) =~= ls);
    while i < lines.len()
        invariant
            i <= lines.len(),
            ls == char_views(lines@),
            ls.len() == lines.len(),
            smartctl_reading(stdout@) == first_line_temperature(ls),
            first_line_temperature(ls) == first_line_temperature(ls.skip(i as int)),
        decreases lines.len() - i,
    {
        assert(ls[i as int] == lines@[i as int]@);
        let line = string_of(&lines[i]);
        let lowered = to_lower(line.as_str());
        let found = smartctl_line_temperature(line.as_str(), lowered.as_str());
        assert(ls.skip(i as int)[0] == ls[i as int]);
        if found.is_some() {
            return found;
        }
        assert(ls.skip(i as int).drop_first() =~= ls.skip(i + 1));
        i = i + 1;
    }
    None
}

/// The temperature in what PowerShell printed: the whole output, trimmed, is a
/// number from 0 to 255.
pub fn parse_powershell_temperature(stdout: &[u8]) -> (r: Option<u8>)
    ensures
        r == powershell_reading(stdout@),
{
    let text = decode_lossy(stdout);
    let chars = chars_of(text.as_str());
    let t = trim_chars(&chars);
    match parse_unsigned_chars(&t, 255) {
        Some(v) => Some(v as u8),
        None => None,
    }
}

/// The WMI query for the temperature of a disk.
pub fn temperature_query(disk_id: &str) -> (q: String)
    ensures
        q@ == temperature_query_text(disk_id@),
{
    let mut q = String::from_str(
        "SELECT Temperature FROM MSFT_StorageReliabilityCounter WHERE DeviceId = '",
    );
    q.append(disk_id);
    q.append("'");
    q
}

/// The PowerShell command that prints the temperature of a disk.
pub fn powershell_script(disk_id: &str) -> (q: String)
    ensures
        q@ == powershell_script_text(disk_id@),
{
    let mut q = String::from_str("(Get-PhysicalDisk | Where-Object DeviceId -eq ");
    q.append(disk_id);
    q.append(" | Get-StorageReliabilityCounter).Temperature");
    q
}

} // verus!
