//! Reading what the card reader and fingerprint scanner scripts print.
//! Running the scripts is the caller's; this module interprets their exit
//! status and output.
use vstd::prelude::*;
use crate::text::{
    all_digits, chars_of, digits_value, parse_u32, push_str, split_on, trim, trim_text, owned,
    text_to_u32, text_to_u64, split_chars, string_of_range,
};

verus! {

/// The error text of a failed integer parse, for a text of digits only.
pub open spec fn digits_parse_error(d: Seq<char>) -> Seq<char> {
    if d.len() == 0 {
        "cannot parse integer from empty string"@
    } else {
        "number too large to fit in target type"@
    }
}

/// What a card reader script's run gives, read as a number no larger than `max`.
pub open spec fn reader_result(success: bool, stdout: Seq<char>, stderr: Seq<char>, max: int) -> Result<int, Seq<char>> {
    let d = trim(stdout);
    if !success {
        Err("Python script failed: "@ + stderr)
    } else if !all_digits(d) {
        Err("Unexpected output from Python script: '"@ + d + "'"@)
    } else if d.len() > 0 && digits_value(d) <= max {
        Ok(digits_value(d) as int)
    } else {
        Err("Parse error: "@ + digits_parse_error(d))
    }
}

fn all_digit_chars(v: &Vec<char>) -> (r: bool)
    ensures
        r == all_digits(v@),
{
    let mut i: usize = 0;
    while i < v.len()
        invariant
            i <= v@.len(),
            all_digits(v@.take(i as int)),
        decreases v@.len() - i,
    {
        if !('0' <= v[i] && v[i] <= '9') {
            assert(!crate::text::is_digit(v@[i as int]));
            return false;
        }
        assert(v@.take(i + 1)[i as int] == v@[i as int]);
        i = i + 1;
    }
    assert(v@.take(v@.len() as int) == v@);
    true
}

fn reader_error(success: bool, d: &String, stderr: &str) -> (r: Option<String>)
    ensures
        !success ==> (r matches Some(e) && e@ == "Python script failed: "@ + stderr@),
        success && !all_digits(d@) ==> (r matches Some(e) && e@ == "Unexpected output from Python script: '"@ + d@
            + "'"@),
        success && all_digits(d@) ==> r is None,
{
    if !success {
        let mut e = owned("Python script failed: ");
        push_str(&mut e, stderr);
        return Some(e);
    }
    let v = chars_of(d.as_str());
    if !all_digit_chars(&v) {
        let mut e = owned("Unexpected output from Python script: '");
        push_str(&mut e, d.as_str());
        push_str(&mut e, "'");
        return Some(e);
    }
    None
}

fn parse_error_text(d: &String) -> (r: String)
    requires
        all_digits(d@),
    ensures
        r@ == "Parse error: "@ + digits_parse_error(d@),
{
    let mut e = owned("Parse error: ");
    let v = chars_of(d.as_str());
    if v.len() == 0 {
        push_str(&mut e, "cannot parse integer from empty string");
    } else {
        push_str(&mut e, "number too large to fit in target type");
    }
    e
}

proof fn lemma_digits_parse(d: Seq<char>, max: int)
    requires
        all_digits(d),
    ensures
        parse_u32(d) == (if d.len() > 0 && digits_value(d) <= u32::MAX { Some(digits_value(d) as int) } else { None::<int> }),
        crate::text::parse_u64(d) == (if d.len() > 0 && digits_value(d) <= u64::MAX { Some(digits_value(d) as int) } else { None::<int> }),
{
    if d.len() > 0 {
        assert(crate::text::is_digit(d[0]));
    }
}

/// The card reader's data block, as `read_rfid` reads it.
pub fn rfid_data_result(success: bool, stdout: &str, stderr: &str) -> (r: Result<u32, String>)
    ensures
        match reader_result(success, stdout@, stderr@, u32::MAX as int) {
            Ok(v) => r == Ok::<u32, String>(v as u32),
            Err(e) => r matches Err(x) && x@ == e,
        },
{
    let d = trim_text(stdout);
    match reader_error(success, &d, stderr) {
        Some(e) => Err(e),
        None => {
            proof {
                lemma_digits_parse(d@, u32::MAX as int);
            }
            match text_to_u32(d.as_str()) {
                Some(v) => Ok(v),
                None => Err(parse_error_text(&d)),
            }
        },
    }
}

/// The card's token, as `get_token_id` reads it.
pub fn token_id_result(success: bool, stdout: &str, stderr: &str) -> (r: Result<u64, String>)
    ensures
        match reader_result(success, stdout@, stderr@, u64::MAX as int) {
            Ok(v) => r == Ok::<u64, String>(v as u64),
            Err(e) => r matches Err(x) && x@ == e,
        },
{
    let d = trim_text(stdout);
    match reader_error(success, &d, stderr) {
        Some(e) => Err(e),
        None => {
            proof {
                lemma_digits_parse(d@, u64::MAX as int);
            }
            match text_to_u64(d.as_str()) {
                Some(v) => Ok(v),
                None => Err(parse_error_text(&d)),
            }
        },
    }
}

/// What a fingerprint scan gives.
pub open spec fn scan_result(success: bool, stdout: Seq<char>, stderr: Seq<char>) -> Result<int, Seq<char>> {
    let d = trim(stdout);
    if !success {
        Err("Fingerprint scan failed: "@ + stderr)
    } else {
        match parse_u32(d) {
            Some(v) => Ok(v),
            None => Err("Unexpected output from fingerprint scan: '"@ + d + "'"@),
        }
    }
}

/// The scanned fingerprint's number, as `scan_fingerprint` reads it.
pub fn fingerprint_scan_result(success: bool, stdout: &str, stderr: &str) -> (r: Result<u32, String>)
    ensures
        match scan_result(success, stdout@, stderr@) {
            Ok(v) => r == Ok::<u32, String>(v as u32),
            Err(e) => r matches Err(x) && x@ == e,
        },
{
    if !success {
        let mut e = owned("Fingerprint scan failed: ");
        push_str(&mut e, stderr);
        return Err(e);
    }
    let d = trim_text(stdout);
    match text_to_u32(d.as_str()) {
        Some(v) => Ok(v),
        None => {
            let mut e = owned("Unexpected output from fingerprint scan: '");
            push_str(&mut e, d.as_str());
            push_str(&mut e, "'");
            Err(e)
        },
    }
}

/// The outcome of a script run for its effect: `Ok(true)`, or the error
/// text made of `prefix` and what the script wrote to its error stream.
pub fn script_outcome(success: bool, prefix: &str, stderr: &str) -> (r: Result<bool, String>)
    ensures
        success ==> r == Ok::<bool, String>(true),
        !success ==> (r matches Err(e) && e@ == prefix@ + stderr@),
{
    if success {
        Ok(true)
    } else {
        let mut e = owned(prefix);
        push_str(&mut e, stderr);
        Err(e)
    }
}

/// The last line of a text, as `str::lines` splits it: lines end at `\n`
/// or `\r\n`, and the final line ending is optional.
pub open spec fn last_line(s: Seq<char>) -> Option<Seq<char>> {
    if s.len() == 0 {
        None
    } else if s.last() == '\n' {
        let l = split_on(s.drop_last(), '\n').last();
        Some(if l.len() > 0 && l.last() == '\r' { l.drop_last() } else { l })
    } else {
        Some(split_on(s, '\n').last())
    }
}

pub fn last_line_text(s: &str) -> (r: Option<String>)
    ensures
        match last_line(s@) {
            Some(l) => r matches Some(x) && x@ == l,
            None => r is None,
        },
{
    let v = chars_of(s);
    let n = v.len();
    if n == 0 {
        return None;
    }
    if v[n - 1] == '\n' {
        let w = string_of_range(&v, 0, n - 1);
        assert(w@ == s@.drop_last());
        let wv = chars_of(w.as_str());
        let pieces = split_chars(&wv, '\n');
        proof {
            crate::text::lemma_split_nonempty(wv@, '\n');
        }
        let last = &pieces[pieces.len() - 1];
        proof {
            assert(crate::text::views(pieces@).last() == last@);
        }
        let m = last.len();
        if m > 0 && last[m - 1] == '\r' {
            Some(string_of_range(last, 0, m - 1))
        } else {
            Some(string_of_range(last, 0, m))
        }
    } else {
        let pieces = split_chars(&v, '\n');
        proof {
            crate::text::lemma_split_nonempty(v@, '\n');
        }
        let last = &pieces[pieces.len() - 1];
        proof {
            assert(crate::text::views(pieces@).last() == last@);
        }
        Some(string_of_range(last, 0, last.len()))
    }
}

} // verus!
