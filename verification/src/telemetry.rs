use crate::text::{
    contains_str, contains_text, is_trimmed_nonempty, lemma_values_after_header_first,
    lemma_values_after_header_trimmed, same_text, split_lines, tabular_value_lines, tabular_values,
    trim,
};
use vstd::prelude::*;
use vstd::utf8::{decode_utf8, valid_utf8};

verus! {

broadcast use vstd::string::group_string_axioms;

// ---------------------------------------------------------------------------
// Outside calls
// ---------------------------------------------------------------------------

/// What `String::from_utf8_lossy` makes of a byte sequence: its UTF-8 decoding,
/// with each invalid sequence replaced by U+FFFD.
pub uninterp spec fn utf8_lossy(bytes: Seq<u8>) -> Seq<char>;

/// What `str::to_lowercase` makes of a text (the Unicode lowercase mapping).
pub uninterp spec fn lowercase(text: Seq<char>) -> Seq<char>;

/// Calls `String::from_utf8_lossy`.  Claimed: the result is the named
/// decoding of the bytes, and for valid UTF-8 it is the plain decoding.  How
/// invalid sequences are replaced is left to the name.
#[verifier::external_body]
fn decode_utf8_lossy(bytes: &[u8]) -> (text: String)
    ensures
        text@ == utf8_lossy(bytes@),
        valid_utf8(bytes@) ==> text@ == decode_utf8(bytes@),
{
    String::from_utf8_lossy(bytes).into_owned()
}

/// Calls `str::to_lowercase`.  Claimed: the result is the named lowercase
/// mapping of the argument; the Unicode mapping itself is not written out.
#[verifier::external_body]
fn to_lowercase(text: &str) -> (lowered: String)
    ensures
        lowered@ == lowercase(text@),
{
    text.to_lowercase()
}

// ---------------------------------------------------------------------------
// WMI queries
// ---------------------------------------------------------------------------

/// The value reported when a WMI query yields nothing usable.
pub open spec fn not_available() -> Seq<char> {
    "N/A"@
}

/// The value of a WMI query whose output decodes to `text`: the first
/// non-empty trimmed line after the header line, or "N/A".
pub open spec fn wmic_text_value(text: Seq<char>) -> Seq<char> {
    let values = tabular_values(text);
    if values.len() > 0 {
        values[0]
    } else {
        not_available()
    }
}

/// The value of a WMI query given its standard output (`None` when the
/// command could not be run).
pub open spec fn wmic_output_value(stdout: Option<Seq<u8>>) -> Seq<char> {
    match stdout {
        Some(bytes) => wmic_text_value(utf8_lossy(bytes)),
        None => not_available(),
    }
}

/// The bytes of a command's standard output, if it could be run.
pub open spec fn bytes_view(stdout: Option<Vec<u8>>) -> Option<Seq<u8>> {
    match stdout {
        Some(b) => Some(b@),
        None => None,
    }
}

/// The characters of a text, if there is one.
pub open spec fn text_view(text: Option<String>) -> Option<Seq<char>> {
    match text {
        Some(t) => Some(t@),
        None => None,
    }
}

/// The characters of each text.
pub open spec fn texts_view(texts: Seq<String>) -> Seq<Seq<char>> {
    texts.map_values(|t: String| t@)
}

/// The value in the decoded output `text` of a WMI query (see `wmic_text_value`).
pub fn wmic_value_from_text(text: &str) -> (value: String)
    ensures
        value@ == wmic_text_value(text@),
{
    let values = tabular_value_lines(text);
    if values.len() > 0 {
        values[0].clone()
    } else {
        "N/A".to_owned()
    }
}

/// The value of a WMI query given the standard output of `wmic.exe`, or
/// `None` when the command could not be run: the first non-empty trimmed
/// line below the header, or "N/A".
pub fn query_wmic(stdout: &Option<Vec<u8>>) -> (value: String)
    ensures
        value@ == wmic_output_value(bytes_view(*stdout)),
        match *stdout {
            Some(b) => valid_utf8(b@) ==> value@ == wmic_text_value(decode_utf8(b@)),
            None => true,
        },
{
    match stdout {
        Some(bytes) => {
            let text = decode_utf8_lossy(bytes.as_slice());
            wmic_value_from_text(text.as_str())
        },
        None => "N/A".to_owned(),
    }
}

/// Number of hardware identifiers shown in the audit view.
pub const WMI_IDENTIFIER_COUNT: usize = 6;

/// The `k`-th hardware identifier of the audit view: its label, and the WMI
/// class and property that hold it.
pub open spec fn identifier_query(k: int) -> (Seq<char>, Seq<char>, Seq<char>) {
    if k == 0 {
        ("System Serial (csproduct)"@, "csproduct"@, "identifyingnumber"@)
    } else if k == 1 {
        ("Motherboard Serial"@, "baseboard"@, "serialnumber"@)
    } else if k == 2 {
        ("BIOS Serial"@, "bios"@, "serialnumber"@)
    } else if k == 3 {
        ("System Manufacturer"@, "csproduct"@, "vendor"@)
    } else if k == 4 {
        ("System Model"@, "csproduct"@, "name"@)
    } else {
        ("Disk Serial"@, "diskdrive"@, "serialnumber"@)
    }
}

/// The hardware identifiers of the audit view as (label, WMI class, WMI
/// property), in display order.
pub fn wmi_identifier_queries() -> (queries: Vec<(&'static str, &'static str, &'static str)>)
    ensures
        queries@.len() == WMI_IDENTIFIER_COUNT,
        forall|k: int|
            0 <= k < WMI_IDENTIFIER_COUNT ==> (#[trigger] queries@[k].0@, queries@[k].1@,
            queries@[k].2@) == identifier_query(k),
        (queries@[0].0@, queries@[0].1@, queries@[0].2@) == (
            "System Serial (csproduct)"@,
            "csproduct"@,
            "identifyingnumber"@,
        ),
        (queries@[1].0@, queries@[1].1@, queries@[1].2@) == (
            "Motherboard Serial"@,
            "baseboard"@,
            "serialnumber"@,
        ),
        (queries@[2].0@, queries@[2].1@, queries@[2].2@) == ("BIOS Serial"@, "bios"@, "serialnumber"@),
        (queries@[3].0@, queries@[3].1@, queries@[3].2@) == (
            "System Manufacturer"@,
            "csproduct"@,
            "vendor"@,
        ),
        (queries@[4].0@, queries@[4].1@, queries@[4].2@) == ("System Model"@, "csproduct"@, "name"@),
        (queries@[5].0@, queries@[5].1@, queries@[5].2@) == (
            "Disk Serial"@,
            "diskdrive"@,
            "serialnumber"@,
        ),
{
    vec![
        ("System Serial (csproduct)", "csproduct", "identifyingnumber"),
        ("Motherboard Serial", "baseboard", "serialnumber"),
        ("BIOS Serial", "bios", "serialnumber"),
        ("System Manufacturer", "csproduct", "vendor"),
        ("System Model", "csproduct", "name"),
        ("Disk Serial", "diskdrive", "serialnumber"),
    ]
}

/// The output given for the `k`-th query: `outputs[k]`, or none when
/// `outputs` is shorter.
pub open spec fn output_at(outputs: Seq<Option<Vec<u8>>>, k: int) -> Option<Seq<u8>> {
    if 0 <= k < outputs.len() {
        bytes_view(outputs[k])
    } else {
        None
    }
}

/// The hardware identifiers for the audit view, as (label, value) pairs in
/// the order of `wmi_identifier_queries`, given the standard outputs of
/// `wmic.exe` for those queries in the same order (`None` where the command
/// could not be run, or where `outputs` stops short).
pub fn get_all_wmi_identifiers(outputs: &Vec<Option<Vec<u8>>>) -> (identifiers: Vec<(String, String)>)
    ensures
        identifiers@.len() == WMI_IDENTIFIER_COUNT,
        forall|k: int|
            0 <= k < WMI_IDENTIFIER_COUNT ==> {
                &&& (#[trigger] identifiers@[k]).0@ == identifier_query(k).0
                &&& identifiers@[k].1@ == wmic_output_value(output_at(outputs@, k))
            },
{
    let queries = wmi_identifier_queries();
    let mut identifiers: Vec<(String, String)> = Vec::new();
    for k in 0..WMI_IDENTIFIER_COUNT
        invariant
            queries@.len() == WMI_IDENTIFIER_COUNT,
            forall|j: int|
                0 <= j < WMI_IDENTIFIER_COUNT ==> (#[trigger] queries@[j].0@, queries@[j].1@,
                queries@[j].2@) == identifier_query(j),
            identifiers@.len() == k,
            forall|j: int|
                0 <= j < k ==> {
                    &&& (#[trigger] identifiers@[j]).0@ == identifier_query(j).0
                    &&& identifiers@[j].1@ == wmic_output_value(output_at(outputs@, j))
                },
    {
        let label = queries[k].0.to_owned();
        let value = if k < outputs.len() {
            query_wmic(&outputs[k])
        } else {
            query_wmic(&None)
        };
        identifiers.push((label, value));
    }
    identifiers
}

// ---------------------------------------------------------------------------
// Device serial number
// ---------------------------------------------------------------------------

/// Number of WMI sources tried for the device serial number.
pub const SERIAL_SOURCE_COUNT: usize = 4;

/// The `k`-th WMI source of the device serial number (class, property), by
/// decreasing reliability: system product, motherboard, BIOS, primary disk.
pub open spec fn serial_source(k: int) -> (Seq<char>, Seq<char>) {
    if k == 0 {
        ("csproduct"@, "identifyingnumber"@)
    } else if k == 1 {
        ("baseboard"@, "serialnumber"@)
    } else if k == 2 {
        ("bios"@, "serialnumber"@)
    } else {
        ("diskdrive"@, "serialnumber"@)
    }
}

/// The WMI sources of the device serial number as (class, property), in the
/// order in which they are tried.
pub fn serial_sources() -> (sources: Vec<(&'static str, &'static str)>)
    ensures
        sources@.len() == SERIAL_SOURCE_COUNT,
        forall|k: int|
            0 <= k < SERIAL_SOURCE_COUNT ==> (#[trigger] sources@[k].0@, sources@[k].1@)
                == serial_source(k),
        SERIAL_SOURCE_COUNT == 4,
        (sources@[0].0@, sources@[0].1@) == ("csproduct"@, "identifyingnumber"@),
        (sources@[1].0@, sources@[1].1@) == ("baseboard"@, "serialnumber"@),
        (sources@[2].0@, sources@[2].1@) == ("bios"@, "serialnumber"@),
        (sources@[3].0@, sources@[3].1@) == ("diskdrive"@, "serialnumber"@),
{
    vec![
        ("csproduct", "identifyingnumber"),
        ("baseboard", "serialnumber"),
        ("bios", "serialnumber"),
        ("diskdrive", "serialnumber"),
    ]
}

/// Whether a lowercased serial number is one of the generic placeholders that
/// manufacturers leave when they stamp no real serial.
pub open spec fn is_placeholder_serial(lowered: Seq<char>) -> bool {
    ||| lowered == "default string"@
    ||| lowered == "to be filled by o.e.m."@
    ||| lowered == "system serial number"@
    ||| lowered == "none"@
    ||| lowered == "0"@
    ||| lowered == "00000000"@
    ||| lowered == "not available"@
    ||| lowered == "chassis serial number"@
}

/// Whether the lowercased serial number `lowered` is a generic placeholder.
pub fn is_placeholder_serial_text(lowered: &str) -> (b: bool)
    ensures
        b == is_placeholder_serial(lowered@),
{
    same_text(lowered, "default string") || same_text(lowered, "to be filled by o.e.m.")
        || same_text(lowered, "system serial number") || same_text(lowered, "none")
        || same_text(lowered, "0") || same_text(lowered, "00000000") || same_text(
        lowered,
        "not available",
    ) || same_text(lowered, "chassis serial number")
}

/// The first candidate whose lowercased form (at the same position in
/// `lowered`) is not a placeholder.
pub open spec fn first_genuine_serial(values: Seq<Seq<char>>, lowered: Seq<Seq<char>>) -> Option<
    Seq<char>,
>
    decreases values.len(),
{
    if values.len() == 0 || lowered.len() == 0 {
        None
    } else if !is_placeholder_serial(lowered[0]) {
        Some(values[0])
    } else {
        first_genuine_serial(values.drop_first(), lowered.drop_first())
    }
}

/// Each text, lowercased.
pub open spec fn lowercase_each(values: Seq<Seq<char>>) -> Seq<Seq<char>> {
    values.map_values(|v: Seq<char>| lowercase(v))
}

/// The serial number that the decoded output `text` of a WMI query yields:
/// the first non-empty trimmed line below the header that is not a
/// placeholder once lowercased.
pub open spec fn serial_in_text(text: Seq<char>) -> Option<Seq<char>> {
    let values = tabular_values(text);
    first_genuine_serial(values, lowercase_each(values))
}

/// The serial number that a WMI query yields, given its standard output.
pub open spec fn serial_in_output(stdout: Option<Seq<u8>>) -> Option<Seq<char>> {
    match stdout {
        Some(bytes) => serial_in_text(utf8_lossy(bytes)),
        None => None,
    }
}

/// The name used when neither WMI nor the system gives an identifier.
pub open spec fn unknown_device() -> Seq<char> {
    "ZINKO-UNKNOWN-DEV"@
}

/// The device serial number: the serial that the first source yielding one
/// gives, otherwise the host name, otherwise "ZINKO-UNKNOWN-DEV".
pub open spec fn system_serial(outputs: Seq<Option<Seq<u8>>>, host_name: Option<Seq<char>>) -> Seq<
    char,
>
    decreases outputs.len(),
{
    if outputs.len() == 0 {
        match host_name {
            Some(h) => h,
            None => unknown_device(),
        }
    } else {
        match serial_in_output(outputs[0]) {
            Some(serial) => serial,
            None => system_serial(outputs.drop_first(), host_name),
        }
    }
}

/// The first of `values` whose lowercased form, at the same position in
/// `lowered`, is not a placeholder serial.
pub fn first_genuine_serial_of(values: &Vec<String>, lowered: &Vec<String>) -> (serial: Option<
    String,
>)
    ensures
        match serial {
            Some(s) => first_genuine_serial(texts_view(values@), texts_view(lowered@)) == Some(s@),
            None => first_genuine_serial(texts_view(values@), texts_view(lowered@)) is None,
        },
{
    let n = if values.len() < lowered.len() {
        values.len()
    } else {
        lowered.len()
    };
    let ghost vs = texts_view(values@);
    let ghost ls = texts_view(lowered@);
    assert(vs.subrange(0, vs.len() as int) =~= vs);
    assert(ls.subrange(0, ls.len() as int) =~= ls);
    for k in 0..n
        invariant
            n <= values@.len(),
            n <= lowered@.len(),
            n == values@.len() || n == lowered@.len(),
            vs == texts_view(values@),
            ls == texts_view(lowered@),
            first_genuine_serial(vs, ls) == first_genuine_serial(
                vs.subrange(k as int, vs.len() as int),
                ls.subrange(k as int, ls.len() as int),
            ),
    {
        let ghost rv = vs.subrange(k as int, vs.len() as int);
        let ghost rl = ls.subrange(k as int, ls.len() as int);
        assert(rv[0] == values@[k as int]@);
        assert(rl[0] == lowered@[k as int]@);
        if !is_placeholder_serial_text(lowered[k].as_str()) {
            return Some(values[k].clone());
        }
        assert(rv.drop_first() =~= vs.subrange(k + 1, vs.len() as int));
        assert(rl.drop_first() =~= ls.subrange(k + 1, ls.len() as int));
    }
    None
}

/// The serial number in the decoded output `text` of a WMI query (see
/// `serial_in_text`).
pub fn serial_from_text(text: &str) -> (serial: Option<String>)
    ensures
        match serial {
            Some(s) => serial_in_text(text@) == Some(s@),
            None => serial_in_text(text@) is None,
        },
{
    let values = tabular_value_lines(text);
    let mut lowered: Vec<String> = Vec::new();
    for k in 0..values.len()
        invariant
            lowered@.len() == k,
            forall|j: int| 0 <= j < k ==> #[trigger] lowered@[j]@ == lowercase(values@[j]@),
    {
        lowered.push(to_lowercase(values[k].as_str()));
    }
    proof {
        assert(texts_view(values@) =~= tabular_values(text@));
        assert(texts_view(lowered@) =~= lowercase_each(tabular_values(text@)));
    }
    first_genuine_serial_of(&values, &lowered)
}

/// The serial number that a WMI query yields, given the standard output of
/// `wmic.exe` (`None` when the command could not be run).
pub fn serial_from_output(stdout: &Option<Vec<u8>>) -> (serial: Option<String>)
    ensures
        match serial {
            Some(s) => serial_in_output(bytes_view(*stdout)) == Some(s@),
            None => serial_in_output(bytes_view(*stdout)) is None,
        },
        match *stdout {
            Some(b) => valid_utf8(b@) ==> serial_in_text(decode_utf8(b@)) == text_view(serial),
            None => true,
        },
{
    match stdout {
        Some(bytes) => {
            let text = decode_utf8_lossy(bytes.as_slice());
            serial_from_text(text.as_str())
        },
        None => None,
    }
}

/// The standard outputs, as bytes.
pub open spec fn outputs_view(outputs: Seq<Option<Vec<u8>>>) -> Seq<Option<Seq<u8>>> {
    outputs.map_values(|o: Option<Vec<u8>>| bytes_view(o))
}

/// The device serial number used as device identifier, given the standard
/// outputs of `wmic.exe` for the sources of `serial_sources` in that order
/// (`None` where the command could not be run) and the host name, if known:
/// the serial that the first source yielding one gives, otherwise the host
/// name, otherwise "ZINKO-UNKNOWN-DEV".
pub fn get_system_serial(outputs: &Vec<Option<Vec<u8>>>, host_name: Option<String>) -> (serial:
    String)
    ensures
        serial@ == system_serial(outputs_view(outputs@), text_view(host_name)),
{
    let ghost host = text_view(host_name);
    let ghost os = outputs_view(outputs@);
    assert(os.subrange(0, os.len() as int) =~= os);
    for k in 0..outputs.len()
        invariant
            os == outputs_view(outputs@),
            host == text_view(host_name),
            system_serial(os, host) == system_serial(os.subrange(k as int, os.len() as int), host),
    {
        let ghost rest = os.subrange(k as int, os.len() as int);
        assert(rest[0] == bytes_view(outputs@[k as int]));
        match serial_from_output(&outputs[k]) {
            Some(serial) => {
                return serial;
            },
            None => {},
        }
        assert(rest.drop_first() =~= os.subrange(k + 1, os.len() as int));
    }
    assert(os.subrange(os.len() as int, os.len() as int) =~= Seq::<Option<Seq<u8>>>::empty());
    match host_name {
        Some(h) => h,
        None => "ZINKO-UNKNOWN-DEV".to_owned(),
    }
}

/// Whether the search for the device serial is over once the outputs of the
/// first `outputs.len()` sources are known: some source already yields a
/// serial, or every source has been tried.
pub open spec fn serial_search_over(outputs: Seq<Option<Seq<u8>>>) -> bool {
    ||| outputs.len() >= SERIAL_SOURCE_COUNT
    ||| exists|k: int| 0 <= k < outputs.len() && (#[trigger] serial_in_output(outputs[k])) is Some
}

/// Whether the search for the device serial is over, given the standard
/// outputs of `wmic.exe` for the first sources of `serial_sources` (see
/// `serial_search_over`); while it is not, the next source is to be queried.
pub fn serial_search_finished(outputs: &Vec<Option<Vec<u8>>>) -> (finished: bool)
    ensures
        finished == serial_search_over(outputs_view(outputs@)),
{
    let ghost os = outputs_view(outputs@);
    if outputs.len() >= SERIAL_SOURCE_COUNT {
        return true;
    }
    for k in 0..outputs.len()
        invariant
            os == outputs_view(outputs@),
            outputs@.len() < SERIAL_SOURCE_COUNT,
            forall|j: int| 0 <= j < k ==> (#[trigger] serial_in_output(os[j])) is None,
    {
        assert(os[k as int] == bytes_view(outputs@[k as int]));
        if serial_from_output(&outputs[k]).is_some() {
            return true;
        }
    }
    false
}

// ---------------------------------------------------------------------------
// Audit display
// ---------------------------------------------------------------------------

/// Whether an identifier value, with `lowered` its lowercased form, looks like
/// a placeholder: "N/A", a generic placeholder serial once lowercased (see
/// `is_placeholder_serial`), or containing "default" or "o.e.m." once
/// lowercased.
pub open spec fn looks_like_placeholder(value: Seq<char>, lowered: Seq<char>) -> bool {
    ||| value == not_available()
    ||| is_placeholder_serial(lowered)
    ||| contains_text(lowered, "default"@)
    ||| contains_text(lowered, "o.e.m."@)
}

/// Whether the identifier `value`, with `lowered` its lowercased form, looks
/// like a placeholder (see `looks_like_placeholder`).
pub fn identifier_looks_like_placeholder(value: &str, lowered: &str) -> (b: bool)
    ensures
        b == looks_like_placeholder(value@, lowered@),
{
    same_text(value, "N/A") || is_placeholder_serial_text(lowered) || contains_str(
        lowered,
        "default",
    ) || contains_str(lowered, "o.e.m.")
}

/// Whether the identifier `value` is shown as a placeholder in the audit view
/// rather than as a real identifier: "N/A", one of the generic placeholder
/// serials in any letter case ("System Serial Number", "None", "0", ...), or
/// containing "default" or "o.e.m." in any letter case.
pub fn is_placeholder_identifier(value: &str) -> (b: bool)
    ensures
        b == looks_like_placeholder(value@, lowercase(value@)),
{
    let lowered = to_lowercase(value);
    identifier_looks_like_placeholder(value, lowered.as_str())
}

// ---------------------------------------------------------------------------
// Laws
// ---------------------------------------------------------------------------

/// A WMI query always yields a usable value: it is never empty and carries no
/// surrounding white space (it is either a trimmed line of the output or "N/A").
pub proof fn lemma_wmic_value_trimmed(stdout: Option<Seq<u8>>)
    ensures
        is_trimmed_nonempty(wmic_output_value(stdout)),
{
    reveal_strlit("N/A");
    match stdout {
        Some(bytes) => {
            let text = utf8_lossy(bytes);
            lemma_values_after_header_trimmed(split_lines(text));
            if tabular_values(text).len() > 0 {
                assert(is_trimmed_nonempty(tabular_values(text)[0]));
            }
        },
        None => {},
    }
}

/// A serial found in a WMI output is one of the values below its header, it
/// carries no surrounding white space, and it is never a placeholder once
/// lowercased.
pub proof fn lemma_serial_in_text_genuine(text: Seq<char>)
    ensures
        serial_in_text(text) matches Some(serial) ==> {
            &&& tabular_values(text).contains(serial)
            &&& is_trimmed_nonempty(serial)
            &&& !is_placeholder_serial(lowercase(serial))
        },
{
    let values = tabular_values(text);
    lemma_values_after_header_trimmed(split_lines(text));
    lemma_first_genuine_serial(values, lowercase_each(values));
}

proof fn lemma_first_genuine_serial(values: Seq<Seq<char>>, lowered: Seq<Seq<char>>)
    requires
        lowered == lowercase_each(values),
    ensures
        first_genuine_serial(values, lowered) matches Some(serial) ==> {
            &&& values.contains(serial)
            &&& !is_placeholder_serial(lowercase(serial))
        },
    decreases values.len(),
{
    if values.len() > 0 {
        if is_placeholder_serial(lowered[0]) {
            assert(lowered.drop_first() =~= lowercase_each(values.drop_first()));
            lemma_first_genuine_serial(values.drop_first(), lowered.drop_first());
            if let Some(serial) = first_genuine_serial(values, lowered) {
                let k = choose|k: int| 0 <= k < values.drop_first().len() && values.drop_first()[k] == serial;
                assert(values[k + 1] == serial);
            }
        }
    }
}

/// The device serial follows the fallback chain: when source `k` is the first
/// to yield a serial, the device serial is that serial.
pub proof fn lemma_serial_first_source_wins(
    outputs: Seq<Option<Seq<u8>>>,
    host_name: Option<Seq<char>>,
    k: int,
)
    requires
        0 <= k < outputs.len(),
        forall|j: int| 0 <= j < k ==> serial_in_output(#[trigger] outputs[j]) is None,
        serial_in_output(outputs[k]) is Some,
    ensures
        system_serial(outputs, host_name) == serial_in_output(outputs[k])->0,
    decreases k,
{
    if k > 0 {
        assert(serial_in_output(outputs[0]) is None);
        lemma_serial_first_source_wins(outputs.drop_first(), host_name, k - 1);
    }
}

/// When no source yields a serial, the device is identified by its host name,
/// or as "ZINKO-UNKNOWN-DEV" when the host name is unknown.
pub proof fn lemma_serial_falls_back_to_host(
    outputs: Seq<Option<Seq<u8>>>,
    host_name: Option<Seq<char>>,
)
    requires
        forall|j: int| 0 <= j < outputs.len() ==> serial_in_output(#[trigger] outputs[j]) is None,
    ensures
        system_serial(outputs, host_name) == (match host_name {
            Some(h) => h,
            None => unknown_device(),
        }),
    decreases outputs.len(),
{
    if outputs.len() > 0 {
        assert(serial_in_output(outputs[0]) is None);
        lemma_serial_falls_back_to_host(outputs.drop_first(), host_name);
    }
}

/// Stopping the serial search early changes nothing: once some output yields
/// a serial, outputs of further sources do not change the device serial.
pub proof fn lemma_serial_search_stops_early(
    outputs: Seq<Option<Seq<u8>>>,
    more: Seq<Option<Seq<u8>>>,
    host_name: Option<Seq<char>>,
)
    requires
        exists|k: int| 0 <= k < outputs.len() && (#[trigger] serial_in_output(outputs[k])) is Some,
    ensures
        system_serial(outputs + more, host_name) == system_serial(outputs, host_name),
    decreases outputs.len(),
{
    if serial_in_output(outputs[0]) is None {
        let k = choose|k: int| 0 <= k < outputs.len() && (#[trigger] serial_in_output(outputs[k])) is Some;
        assert(serial_in_output(outputs.drop_first()[k - 1]) is Some);
        assert((outputs + more).drop_first() =~= outputs.drop_first() + more);
        lemma_serial_search_stops_early(outputs.drop_first(), more, host_name);
    } else {
        assert((outputs + more)[0] == outputs[0]);
    }
}

/// A WMI query gives the first line below the header that is not blank,
/// trimmed; when every line below the header is blank it gives "N/A".
pub proof fn lemma_wmic_value_is_first_line(text: Seq<char>)
    ensures
        (forall|j: int|
            1 <= j < split_lines(text).len() ==> trim(#[trigger] split_lines(text)[j]).len() == 0)
            ==> wmic_text_value(text) == "N/A"@,
        forall|i: int|
            1 <= i < split_lines(text).len() && trim(#[trigger] split_lines(text)[i]).len() > 0
                && (forall|j: int|
                1 <= j < i ==> trim(#[trigger] split_lines(text)[j]).len() == 0)
                ==> wmic_text_value(text) == trim(split_lines(text)[i]),
{
    lemma_values_after_header_first(split_lines(text));
}

proof fn lemma_first_genuine_serial_is_first(values: Seq<Seq<char>>)
    ensures
        first_genuine_serial(values, lowercase_each(values)) is None <==> (forall|j: int|
            0 <= j < values.len() ==> is_placeholder_serial(lowercase(#[trigger] values[j]))),
        forall|i: int|
            0 <= i < values.len() && !is_placeholder_serial(lowercase(#[trigger] values[i])) && (
            forall|j: int| 0 <= j < i ==> is_placeholder_serial(lowercase(#[trigger] values[j])))
                ==> first_genuine_serial(values, lowercase_each(values)) == Some(values[i]),
    decreases values.len(),
{
    if values.len() > 0 {
        let rest = values.drop_first();
        assert(lowercase_each(values).drop_first() =~= lowercase_each(rest));
        assert(lowercase_each(values)[0] == lowercase(values[0]));
        lemma_first_genuine_serial_is_first(rest);
        assert forall|j: int| 0 <= j < rest.len() implies #[trigger] rest[j] == values[j + 1] by {}
        if is_placeholder_serial(lowercase(values[0])) {
            assert forall|i: int|
                0 <= i < values.len() && !is_placeholder_serial(lowercase(#[trigger] values[i])) && (
                forall|j: int| 0 <= j < i ==> is_placeholder_serial(lowercase(#[trigger] values[j])))
                    implies first_genuine_serial(values, lowercase_each(values)) == Some(values[i]) by {
                assert(i > 0);
                assert(rest[i - 1] == values[i]);
                assert forall|j: int| 0 <= j < i - 1 implies is_placeholder_serial(
                    lowercase(#[trigger] rest[j]),
                ) by {
                    assert(rest[j] == values[j + 1]);
                }
            }
            if forall|j: int| 0 <= j < values.len() ==> is_placeholder_serial(lowercase(#[trigger] values[j])) {
                assert forall|j: int| 0 <= j < rest.len() implies is_placeholder_serial(
                    lowercase(#[trigger] rest[j]),
                ) by {
                    assert(rest[j] == values[j + 1]);
                }
            }
            if first_genuine_serial(values, lowercase_each(values)) is None {
                assert forall|j: int| 0 <= j < values.len() implies is_placeholder_serial(
                    lowercase(#[trigger] values[j]),
                ) by {
                    if j > 0 {
                        assert(values[j] == rest[j - 1]);
                    }
                }
            }
        }
    }
}

/// The serial found in a WMI output is the first value below the header that
/// is not a placeholder once lowercased; there is none exactly when every
/// value is a placeholder.
pub proof fn lemma_serial_is_first_genuine(text: Seq<char>)
    ensures
        serial_in_text(text) is None <==> (forall|j: int|
            0 <= j < tabular_values(text).len() ==> is_placeholder_serial(
                lowercase(#[trigger] tabular_values(text)[j]),
            )),
        forall|i: int|
            0 <= i < tabular_values(text).len() && !is_placeholder_serial(
                lowercase(#[trigger] tabular_values(text)[i]),
            ) && (forall|j: int|
                0 <= j < i ==> is_placeholder_serial(lowercase(#[trigger] tabular_values(text)[j])))
                ==> serial_in_text(text) == Some(tabular_values(text)[i]),
{
    lemma_first_genuine_serial_is_first(tabular_values(text));
}

/// The serial search stops only when it may: it is over exactly when all
/// four sources were tried or a tried source yields a serial, and once it is
/// over, the outputs of the sources left untried cannot change the device
/// serial.
pub proof fn lemma_serial_search_over_is_safe(
    outputs: Seq<Option<Seq<u8>>>,
    more: Seq<Option<Seq<u8>>>,
    host_name: Option<Seq<char>>,
)
    ensures
        serial_search_over(outputs) <==> (outputs.len() >= 4 || exists|k: int|
            0 <= k < outputs.len() && (#[trigger] serial_in_output(outputs[k])) is Some),
        serial_search_over(outputs) && outputs.len() + more.len() <= 4 ==> system_serial(
            outputs + more,
            host_name,
        ) == system_serial(outputs, host_name),
{
    if serial_search_over(outputs) && outputs.len() + more.len() <= 4 {
        if outputs.len() >= 4 {
            assert(outputs + more =~= outputs);
        } else {
            lemma_serial_search_stops_early(outputs, more, host_name);
        }
    }
}

/// Each label of the audit view is backed by its own WMI query, whatever its
/// position: "System Serial (csproduct)" by csproduct.identifyingnumber,
/// "Motherboard Serial" by baseboard.serialnumber, "BIOS Serial" by
/// bios.serialnumber, "System Manufacturer" by csproduct.vendor,
/// "System Model" by csproduct.name, "Disk Serial" by diskdrive.serialnumber.
pub proof fn lemma_identifier_labels_backed(k: int)
    requires
        0 <= k < WMI_IDENTIFIER_COUNT,
    ensures
        identifier_query(k).0 == "System Serial (csproduct)"@ ==> (identifier_query(k).1, identifier_query(k).2) == ("csproduct"@, "identifyingnumber"@),
        identifier_query(k).0 == "Motherboard Serial"@ ==> (identifier_query(k).1, identifier_query(k).2) == ("baseboard"@, "serialnumber"@),
        identifier_query(k).0 == "BIOS Serial"@ ==> (identifier_query(k).1, identifier_query(k).2) == ("bios"@, "serialnumber"@),
        identifier_query(k).0 == "System Manufacturer"@ ==> (identifier_query(k).1, identifier_query(k).2) == ("csproduct"@, "vendor"@),
        identifier_query(k).0 == "System Model"@ ==> (identifier_query(k).1, identifier_query(k).2) == ("csproduct"@, "name"@),
        identifier_query(k).0 == "Disk Serial"@ ==> (identifier_query(k).1, identifier_query(k).2) == ("diskdrive"@, "serialnumber"@),
{
    reveal_strlit("System Serial (csproduct)");
    reveal_strlit("Motherboard Serial");
    reveal_strlit("BIOS Serial");
    reveal_strlit("System Manufacturer");
    reveal_strlit("System Model");
    reveal_strlit("Disk Serial");
    assert("System Serial (csproduct)"@[0] != "Motherboard Serial"@[0]);
    assert("BIOS Serial"@.len() != "Disk Serial"@.len() || "BIOS Serial"@[0] != "Disk Serial"@[0]);
    assert("System Manufacturer"@.len() != "System Model"@.len());
    assert("System Manufacturer"@.len() != "System Serial (csproduct)"@.len());
    assert("System Model"@.len() != "System Serial (csproduct)"@.len());
}

/// The audit placeholder check ignores letter case: apart from the exact
/// value "N/A", two values with the same lowercase form get the same answer.
pub proof fn lemma_placeholder_check_ignores_case(v1: Seq<char>, v2: Seq<char>)
    requires
        v1 != "N/A"@,
        v2 != "N/A"@,
        lowercase(v1) == lowercase(v2),
    ensures
        looks_like_placeholder(v1, lowercase(v1)) == looks_like_placeholder(v2, lowercase(v2)),
{
}

/// A value is shown as a placeholder exactly when it is "N/A", or its
/// lowercase form is a generic placeholder serial or contains "default" or
/// "o.e.m.".
pub proof fn lemma_placeholder_check_markers(v: Seq<char>)
    ensures
        looks_like_placeholder(v, lowercase(v)) <==> (v == "N/A"@ || is_placeholder_serial(
            lowercase(v),
        ) || contains_text(lowercase(v), "default"@) || contains_text(lowercase(v), "o.e.m."@)),
{
}

/// The generic placeholder serials, in lowercase, are exactly "default string",
/// "to be filled by o.e.m.", "system serial number", "none", "0",
/// "00000000", "not available" and "chassis serial number"; a real serial
/// such as "pf0abc12" or the empty text is none of them.
pub proof fn lemma_placeholder_serials_listed()
    ensures
        is_placeholder_serial("default string"@),
        is_placeholder_serial("to be filled by o.e.m."@),
        is_placeholder_serial("system serial number"@),
        is_placeholder_serial("none"@),
        is_placeholder_serial("0"@),
        is_placeholder_serial("00000000"@),
        is_placeholder_serial("not available"@),
        is_placeholder_serial("chassis serial number"@),
        !is_placeholder_serial("pf0abc12"@),
        !is_placeholder_serial(Seq::<char>::empty()),
{
    reveal_strlit("pf0abc12");
    reveal_strlit("default string");
    reveal_strlit("to be filled by o.e.m.");
    reveal_strlit("system serial number");
    reveal_strlit("none");
    reveal_strlit("0");
    reveal_strlit("00000000");
    reveal_strlit("not available");
    reveal_strlit("chassis serial number");
    assert("pf0abc12"@[0] != "00000000"@[0]);
    assert("pf0abc12"@.len() != "none"@.len());
    let e = Seq::<char>::empty();
    assert(e.len() != "0"@.len());
    assert(e.len() != "none"@.len());
    assert(e.len() != "00000000"@.len());
    assert(e.len() != "default string"@.len());
}

} // verus!
