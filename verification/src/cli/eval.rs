//! The `eval` command's own flag: the dataset split it reports on.
use vstd::prelude::*;

use crate::cli::args::{usage, Parsed, Usage};
use crate::cli::host::req_value;
use crate::eval_report::Split;
use crate::order::str_eq;
use crate::order::texts;
use crate::text::{debug_quoted, debug_text, join, join3, lower_text, to_ascii_lower};
use vstd::string::StringSliceAdditionalSpecFns;
use vstd::utf8::encode_utf8;

verus! {

/// The split `--split` names, or its refusal.
pub open spec fn split_flag(pairs: Seq<(Seq<char>, Seq<char>)>) -> Result<Split, Seq<char>> {
    let v = req_value(pairs, "split"@);
    if v == "training"@ {
        Ok(Split::Training)
    } else if v == "model_selection"@ {
        Ok(Split::ModelSelection)
    } else if v == "calibration"@ {
        Ok(Split::Calibration)
    } else if v == "final_test"@ {
        Ok(Split::FinalTest)
    } else {
        Err("--split is training, model_selection, calibration or final_test, not "@ + debug_text(v))
    }
}

/// The split `--split` names.
pub fn split(p: &Parsed) -> (r: Result<Split, Usage>)
    ensures
        match split_flag(p.pairs()) {
            Ok(s) => r == Ok::<Split, Usage>(s),
            Err(m) => r matches Err(u) && u.0@ == m,
        },
{
    let v = p.req("split");
    if str_eq(v, "training") {
        Ok(Split::Training)
    } else if str_eq(v, "model_selection") {
        Ok(Split::ModelSelection)
    } else if str_eq(v, "calibration") {
        Ok(Split::Calibration)
    } else if str_eq(v, "final_test") {
        Ok(Split::FinalTest)
    } else {
        usage(join(
            "--split is training, model_selection, calibration or final_test, not ",
            debug_quoted(v).as_str(),
        ))
    }
}


/// An ASCII letter or digit.
pub open spec fn is_alnum(b: u8) -> bool {
    (48 <= b <= 57) || (65 <= b <= 90) || (97 <= b <= 122)
}

/// A case id that names a bundle file: 1 to 128 bytes of `[A-Za-z0-9._-]`
/// starting with a letter or digit.
pub open spec fn case_id_ok(b: Seq<u8>) -> bool {
    &&& 1 <= b.len() <= 128
    &&& is_alnum(b[0])
    &&& forall|i: int| 0 <= i < b.len() ==> is_alnum(#[trigger] b[i]) || b[i] == 46 || b[i] == 95 || b[i] == 45
}

/// The first refused case id from the `i`th on: one that names no bundle
/// file, or one equal to an earlier id but for ASCII case.
pub open spec fn case_ids_refusal(ids: Seq<Seq<char>>, i: int) -> Option<Seq<char>>
    decreases ids.len() - i,
{
    if i < 0 || i >= ids.len() {
        None
    } else if !case_id_ok(encode_utf8(ids[i])) {
        Some("case id "@ + debug_text(ids[i]) + " is not a bundle file name"@)
    } else if exists|j: int| 0 <= j < i && lower_text(#[trigger] ids[j]) == lower_text(ids[i]) {
        Some("case id "@ + debug_text(ids[i]) + " differs from another only by case"@)
    } else {
        case_ids_refusal(ids, i + 1)
    }
}

/// Whether a case id names a bundle file.
fn id_ok(id: &str) -> (r: bool)
    ensures
        r == case_id_ok(id.spec_bytes()),
{
    let b = id.as_bytes();
    let n = b.len();
    if n == 0 || n > 128 {
        return false;
    }
    let c = b[0];
    if !((48u8 <= c && c <= 57u8) || (65u8 <= c && c <= 90u8) || (97u8 <= c && c <= 122u8)) {
        return false;
    }
    let mut i: usize = 0;
    while i < n
        invariant
            n == b@.len(),
            b@ == id.spec_bytes(),
            i <= n,
            forall|k: int| 0 <= k < i ==> is_alnum(#[trigger] b@[k]) || b@[k] == 46 || b@[k] == 95 || b@[k] == 45,
        decreases n - i,
    {
        let x = b[i];
        if !((48u8 <= x && x <= 57u8) || (65u8 <= x && x <= 90u8) || (97u8 <= x && x <= 122u8) || x == 46u8
            || x == 95u8 || x == 45u8) {
            return false;
        }
        i = i + 1;
    }
    true
}

/// Case ids that map to bundle files: 1 to 128 bytes of `[A-Za-z0-9._-]`
/// starting with a letter or digit, distinct ignoring ASCII case. The first
/// refused id is named.
pub fn check_case_ids(ids: &Vec<String>) -> (r: Result<(), String>)
    ensures
        match case_ids_refusal(texts(ids@), 0) {
            Some(m) => r matches Err(e) && e@ == m,
            None => r is Ok,
        },
{
    let ghost t = texts(ids@);
    let mut seen: Vec<String> = Vec::new();
    let mut i: usize = 0;
    while i < ids.len()
        invariant
            t == texts(ids@),
            i <= ids@.len(),
            seen@.len() == i,
            forall|k: int| 0 <= k < i ==> (#[trigger] seen@[k])@ == lower_text(t[k]),
            case_ids_refusal(t, 0) == case_ids_refusal(t, i as int),
        decreases ids@.len() - i,
    {
        let id = ids[i].as_str();
        proof {
            assert(t[i as int] == id@);
        }
        if !id_ok(id) {
            return Err(join3("case id ", debug_quoted(id).as_str(), " is not a bundle file name"));
        }
        let lower = to_ascii_lower(id);
        let mut k: usize = 0;
        while k < seen.len()
            invariant
                seen@.len() == i,
                i < ids@.len(),
                t == texts(ids@),
                k <= i,
                lower@ == lower_text(t[i as int]),
                id@ == t[i as int],
                case_id_ok(encode_utf8(t[i as int])),
                case_ids_refusal(t, 0) == case_ids_refusal(t, i as int),
                forall|m: int| 0 <= m < i ==> (#[trigger] seen@[m])@ == lower_text(t[m]),
                forall|m: int| 0 <= m < k ==> lower_text(#[trigger] t[m]) != lower_text(t[i as int]),
            decreases i - k,
        {
            if str_eq(seen[k].as_str(), lower.as_str()) {
                let q = debug_quoted(id);
                let e = join3("case id ", q.as_str(), " differs from another only by case");
                proof {
                    reveal_strlit("case id ");
                    reveal_strlit(" differs from another only by case");
                    assert(lower_text(t[k as int]) == lower_text(t[i as int]));
                    assert(exists|j: int| 0 <= j < i && lower_text(#[trigger] t[j]) == lower_text(t[i as int]));
                }
                return Err(e);
            }
            k = k + 1;
        }
        seen.push(lower);
        i = i + 1;
    }
    Ok(())
}

} // verus!
