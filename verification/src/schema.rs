//! The storage contract the ledger's safety argument rests on.
use vstd::prelude::*;
use vstd::string::*;

use crate::error::{plain, ErrorView, LedgerError};
use crate::text::{
    ascii_upper, begins, chars_of, eq_ignoring_case, push_signed, same_letters, signed_text, str_eq,
    str_view, to_upper,
};

verus! {

#[derive(Debug)]
pub struct LedgerConfig {
    pub ledger_path: String,
    /// Must live on a different volume from `ledger_path`, so that restoring
    /// one volume from a snapshot cannot roll both back together.
    pub external_hwm_path: String,
    pub lock_dir: String,
    pub organization: String,
    pub pools: Vec<String>,
    /// Waives the separate-volume check. For tests only: with both records
    /// on one volume, rollback detection is lost.
    pub allow_same_volume_external_record: bool,
}

/// STRICT tables need SQLite 3.37.0 or later.
pub const MIN_SQLITE_VERSION: i32 = 3_037_000;

/// The durability settings in effect, as the database reports them.
#[derive(Debug)]
pub struct StorageSettings {
    pub version_number: i32,
    pub version: String,
    pub journal_mode: String,
    pub synchronous: i64,
    pub foreign_keys: i64,
}

/// What is wrong with the settings in effect.
pub open spec fn settings_fault(settings: StorageSettings) -> Option<Seq<char>> {
    if settings.version_number < MIN_SQLITE_VERSION {
        Some(
            "SQLite "@ + settings.version@
                + " is older than 3.37.0, which STRICT tables require"@,
        )
    } else if !same_letters(settings.journal_mode@, "wal"@) {
        Some("journal_mode is "@ + settings.journal_mode@ + ", not wal"@)
    } else if settings.synchronous != 2 {
        Some("synchronous is "@ + signed_text(settings.synchronous as int) + ", not FULL"@)
    } else if settings.foreign_keys != 1 {
        Some("foreign_keys could not be enabled"@)
    } else {
        None
    }
}

/// Checks the durability settings that were read back. A setting that silently
/// failed to take effect is treated as fatal, because `journal_mode` reports
/// the previous mode rather than an error when WAL cannot be enabled.
pub fn verify_settings(settings: &StorageSettings) -> (result: Result<(), LedgerError>)
    ensures
        plain(result) == match settings_fault(*settings) {
            None => Ok::<(), ErrorView>(()),
            Some(text) => Err::<(), ErrorView>(ErrorView::StorageContract(text)),
        },
{
    if settings.version_number < MIN_SQLITE_VERSION {
        let mut text = String::from_str("SQLite ");
        text.push_str(settings.version.as_str());
        text.push_str(" is older than 3.37.0, which STRICT tables require");
        return Err(LedgerError::StorageContract(text));
    }
    if !eq_ignoring_case(settings.journal_mode.as_str(), "wal") {
        let mut text = String::from_str("journal_mode is ");
        text.push_str(settings.journal_mode.as_str());
        text.push_str(", not wal");
        return Err(LedgerError::StorageContract(text));
    }
    if settings.synchronous != 2 {
        let mut text = String::from_str("synchronous is ");
        push_signed(&mut text, settings.synchronous);
        text.push_str(", not FULL");
        return Err(LedgerError::StorageContract(text));
    }
    if settings.foreign_keys != 1 {
        return Err(
            LedgerError::StorageContract(String::from_str("foreign_keys could not be enabled")),
        );
    }
    Ok(())
}

/// A path with its separators all written the same way.
pub open spec fn with_backslashes(path: Seq<char>) -> Seq<char> {
    Seq::new(
        path.len(),
        |i: int|
            if path[i] == '/' {
                '\\'
            } else {
                path[i]
            },
    )
}

pub open spec fn in_upper_case(text: Seq<char>) -> Seq<char> {
    Seq::new(text.len(), |i: int| ascii_upper(text[i]))
}

/// A path that names a share: it starts with two separators, unless it is a
/// verbatim path to a drive.
pub open spec fn is_network_path(path: Seq<char>) -> bool {
    let normalized = with_backslashes(path);
    ("\\\\"@.is_prefix_of(normalized) && !"\\\\?\\"@.is_prefix_of(normalized))
        || "\\\\?\\UNC\\"@.is_prefix_of(in_upper_case(normalized))
}

pub open spec fn network_path_text(path: Seq<char>) -> Seq<char> {
    "ledger path "@ + path + " is on a network share"@
}

/// WAL depends on shared memory that network filesystems do not provide
/// reliably, so a ledger on a network path is refused outright.
pub fn reject_network_path(path: &str) -> (result: Result<(), LedgerError>)
    ensures
        plain(result) == if is_network_path(path@) {
            Err::<(), ErrorView>(ErrorView::StorageContract(network_path_text(path@)))
        } else {
            Ok::<(), ErrorView>(())
        },
{
    let chars = chars_of(path);
    let mut normalized: Vec<char> = Vec::new();
    let mut upper: Vec<char> = Vec::new();
    let mut i: usize = 0;
    while i < chars.len()
        invariant
            i <= chars@.len(),
            chars@ == path@,
            normalized@ == with_backslashes(path@).take(i as int),
            upper@ == in_upper_case(with_backslashes(path@)).take(i as int),
        decreases chars.len() - i,
    {
        let c: char = if chars[i] == '/' {
            '\\'
        } else {
            chars[i]
        };
        proof {
            let n = with_backslashes(path@);
            assert(n.take(i + 1) =~= n.take(i as int).push(c));
            let u = in_upper_case(n);
            assert(u.take(i + 1) =~= u.take(i as int).push(ascii_upper(c)));
        }
        normalized.push(c);
        upper.push(to_upper(c));
        i = i + 1;
    }
    assert(normalized@ =~= with_backslashes(path@));
    assert(upper@ =~= in_upper_case(with_backslashes(path@)));
    if (begins(&normalized, "\\\\") && !begins(&normalized, "\\\\?\\")) || begins(
        &upper,
        "\\\\?\\UNC\\",
    ) {
        let mut text = String::from_str("ledger path ");
        text.push_str(path);
        text.push_str(" is on a network share");
        return Err(LedgerError::StorageContract(text));
    }
    Ok(())
}

/// Whether the two records are apart, given the volumes that hold them.
pub open spec fn separation_fault(
    allow_same_volume: bool,
    ledger_volume: Option<Seq<char>>,
    external_volume: Option<Seq<char>>,
) -> Option<Seq<char>> {
    if allow_same_volume {
        None
    } else {
        match (ledger_volume, external_volume) {
            (Some(ledger), Some(external)) => if ledger != external {
                None
            } else {
                Some(
                    "the external record is on the same volume as the ledger, so one snapshot restore would roll both back"@,
                )
            },
            _ => Some(
                "could not determine which volumes hold the ledger and the external record"@,
            ),
        }
    }
}

/// Refuses to put the ledger and the external record on one volume.
pub fn verify_separation(
    allow_same_volume: bool,
    ledger_volume: Option<&str>,
    external_volume: Option<&str>,
) -> (result: Result<(), LedgerError>)
    ensures
        plain(result) == match separation_fault(
            allow_same_volume,
            str_view(ledger_volume),
            str_view(external_volume),
        ) {
            None => Ok::<(), ErrorView>(()),
            Some(text) => Err::<(), ErrorView>(ErrorView::StorageContract(text)),
        },
{
    if allow_same_volume {
        return Ok(());
    }
    match (ledger_volume, external_volume) {
        (Some(ledger), Some(external)) => {
            if !str_eq(ledger, external) {
                Ok(())
            } else {
                Err(
                    LedgerError::StorageContract(
                        String::from_str(
                            "the external record is on the same volume as the ledger, so one snapshot restore would roll both back",
                        ),
                    ),
                )
            }
        },
        _ => Err(
            LedgerError::StorageContract(
                String::from_str(
                    "could not determine which volumes hold the ledger and the external record",
                ),
            ),
        ),
    }
}

/// Law: settings are accepted exactly where the database has strict tables and
/// keeps what it commits: 3.37.0 or later, a write-ahead log in any case of
/// letters, full synchronisation, and foreign keys.
pub proof fn only_durable_settings_are_accepted(settings: StorageSettings)
    ensures
        settings_fault(settings) is None <==> {
            &&& settings.version_number >= 3_037_000
            &&& same_letters(settings.journal_mode@, "wal"@)
            &&& settings.synchronous == 2
            &&& settings.foreign_keys == 1
        },
{
}

/// A separator of either kind.
pub open spec fn is_separator(c: char) -> bool {
    c == '/' || c == '\\'
}

/// Law: a path names a share where it begins with two separators, of either
/// kind, unless a question mark and a separator follow, which name a drive, and
/// not a share as `UNC` does in any case of letters.
pub proof fn a_share_begins_with_two_separators(path: Seq<char>)
    ensures
        is_network_path(path) <==> {
            let doubled = path.len() >= 2 && is_separator(path[0]) && is_separator(path[1]);
            let verbatim = path.len() >= 4 && path[2] == '?' && is_separator(path[3]);
            let unc = path.len() >= 8 && ascii_upper(path[4]) == 'U' && ascii_upper(path[5]) == 'N'
                && ascii_upper(path[6]) == 'C' && is_separator(path[7]);
            doubled && (!verbatim || unc)
        },
{
    reveal_strlit("\\\\");
    reveal_strlit("\\\\?\\");
    reveal_strlit("\\\\?\\UNC\\");
    let normalized = with_backslashes(path);
    let upper = in_upper_case(normalized);
    let two = "\\\\"@;
    let four = "\\\\?\\"@;
    let eight = "\\\\?\\UNC\\"@;
    assert(two.len() == 2 && four.len() == 4 && eight.len() == 8);
    assert(two[0] == '\\' && two[1] == '\\');
    assert(four[0] == '\\' && four[1] == '\\' && four[2] == '?' && four[3] == '\\');
    assert(eight[0] == '\\' && eight[1] == '\\' && eight[2] == '?' && eight[3] == '\\');
    assert(eight[4] == 'U' && eight[5] == 'N' && eight[6] == 'C' && eight[7] == '\\');
    if path.len() >= 2 {
        assert(normalized[0] == if path[0] == '/' { '\\' } else { path[0] });
        assert(normalized[1] == if path[1] == '/' { '\\' } else { path[1] });
        assert(two =~= normalized.take(2) <==> is_separator(path[0]) && is_separator(path[1]));
    }
    if path.len() >= 4 {
        assert(normalized[2] == if path[2] == '/' { '\\' } else { path[2] });
        assert(normalized[3] == if path[3] == '/' { '\\' } else { path[3] });
        assert(four =~= normalized.take(4) <==> is_separator(path[0]) && is_separator(path[1])
            && path[2] == '?' && is_separator(path[3]));
    }
    if path.len() >= 8 {
        lemma_unc(path);
    }
}

/// When a path begins as a share does in verbatim form.
proof fn lemma_unc(path: Seq<char>)
    requires
        path.len() >= 8,
    ensures
        "\\\\?\\UNC\\"@.is_prefix_of(in_upper_case(with_backslashes(path))) <==> is_separator(path[0])
            && is_separator(path[1]) && path[2] == '?' && is_separator(path[3]) && ascii_upper(
            path[4],
        ) == 'U' && ascii_upper(path[5]) == 'N' && ascii_upper(path[6]) == 'C' && is_separator(
            path[7],
        ),
{
    reveal_strlit("\\\\?\\UNC\\");
    let eight = "\\\\?\\UNC\\"@;
    let upper = in_upper_case(with_backslashes(path));
    assert(eight.len() == 8);
    assert(eight[0] == '\\' && eight[1] == '\\' && eight[2] == '?' && eight[3] == '\\');
    assert(eight[4] == 'U' && eight[5] == 'N' && eight[6] == 'C' && eight[7] == '\\');
    lemma_upper_separator(path[0]);
    lemma_upper_separator(path[1]);
    lemma_upper_separator(path[2]);
    lemma_upper_separator(path[3]);
    lemma_upper_separator(path[4]);
    lemma_upper_separator(path[5]);
    lemma_upper_separator(path[6]);
    lemma_upper_separator(path[7]);
    assert(upper[0] == upper_separator(path[0]));
    assert(upper[1] == upper_separator(path[1]));
    assert(upper[2] == upper_separator(path[2]));
    assert(upper[3] == upper_separator(path[3]));
    assert(upper[4] == upper_separator(path[4]));
    assert(upper[5] == upper_separator(path[5]));
    assert(upper[6] == upper_separator(path[6]));
    assert(upper[7] == upper_separator(path[7]));
    assert(eight =~= upper.take(8) <==> (upper[0] == '\\' && upper[1] == '\\' && upper[2] == '?'
        && upper[3] == '\\' && upper[4] == 'U' && upper[5] == 'N' && upper[6] == 'C' && upper[7]
        == '\\'));
}

spec fn upper_separator(c: char) -> char {
    ascii_upper(
        if c == '/' {
            '\\'
        } else {
            c
        },
    )
}

proof fn lemma_upper_separator(c: char)
    ensures
        upper_separator(c) == '\\' <==> is_separator(c),
        upper_separator(c) == '?' <==> c == '?',
        upper_separator(c) == 'U' <==> ascii_upper(c) == 'U',
        upper_separator(c) == 'N' <==> ascii_upper(c) == 'N',
        upper_separator(c) == 'C' <==> ascii_upper(c) == 'C',
{
}

/// Law: the two records are apart where both volumes are known and differ, and
/// the check is waived where it is allowed to be.
pub proof fn the_records_stand_apart(
    allow_same_volume: bool,
    ledger_volume: Option<Seq<char>>,
    external_volume: Option<Seq<char>>,
)
    ensures
        separation_fault(allow_same_volume, ledger_volume, external_volume) is None
            <==> allow_same_volume || (ledger_volume is Some && external_volume is Some
            && ledger_volume->0 != external_volume->0),
{
}

} // verus!
