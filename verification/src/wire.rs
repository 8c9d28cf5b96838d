use vstd::prelude::*;

use vstd::utf8::{decode_utf8, valid_utf8};

verus! {

/// What `String::from_utf8_lossy` makes of a byte sequence.
pub uninterp spec fn lossy_utf8(bytes: Seq<u8>) -> Seq<char>;

/// Calls `String::from_utf8_lossy` and takes the result as an owned string.
/// The result is named `lossy_utf8` of the bytes. Its documentation promises
/// that valid UTF-8 is decoded as it stands and that invalid sequences are
/// replaced by U+FFFD, so the text of malformed input holds that character;
/// where exactly the replacements fall is not spelled out here.
#[verifier::external_body]
fn utf8_lossy(bytes: &[u8]) -> (text: String)
    ensures
        text@ == lossy_utf8(bytes@),
        valid_utf8(bytes@) ==> text@ == decode_utf8(bytes@),
        !valid_utf8(bytes@) ==> text@.contains('\u{FFFD}'),
{
    String::from_utf8_lossy(bytes).into_owned()
}

/// A string that arrives from the foreign side as raw bytes; malformed UTF-8
/// is replaced rather than refused.
pub fn wire_string(bytes: &[u8]) -> (text: String)
    ensures
        text@ == lossy_utf8(bytes@),
        valid_utf8(bytes@) ==> text@ == decode_utf8(bytes@),
        !valid_utf8(bytes@) ==> text@.contains('\u{FFFD}'),
{
    utf8_lossy(bytes)
}

/// A list of strings that arrives from the foreign side, one byte buffer per
/// string, decoded in order.
pub fn wire_string_list(items: &Vec<Vec<u8>>) -> (texts: Vec<String>)
    ensures
        texts@.len() == items@.len(),
        forall|i: int| 0 <= i < items@.len() ==> (#[trigger] texts@[i])@ == lossy_utf8(items@[i]@),
        forall|i: int|
            0 <= i < items@.len() && valid_utf8(items@[i]@) ==> (#[trigger] texts@[i])@ == decode_utf8(
                items@[i]@,
            ),
{
    let mut texts: Vec<String> = Vec::new();
    let mut i: usize = 0;
    while i < items.len()
        invariant
            i <= items@.len(),
            texts@.len() == i,
            forall|j: int| 0 <= j < i ==> (#[trigger] texts@[j])@ == lossy_utf8(items@[j]@),
            forall|j: int|
                0 <= j < i && valid_utf8(items@[j]@) ==> (#[trigger] texts@[j])@ == decode_utf8(items@[j]@),
        decreases items@.len() - i,
    {
        texts.push(wire_string(items[i].as_slice()));
        i += 1;
    }
    texts
}

/// The status that the C entry point reports for an initialisation: 0 on
/// success, 1 on failure.
pub fn status_code<E>(outcome: &Result<(), E>) -> (code: i32)
    ensures
        outcome is Ok ==> code == 0,
        outcome is Err ==> code == 1,
{
    match outcome {
        Ok(_) => 0,
        Err(_) => 1,
    }
}

/// The sum of two integers, for callers on the foreign side.
pub fn rust_add(n1: i32, n2: i32) -> (sum: i32)
    requires
        i32::MIN <= n1 + n2 <= i32::MAX,
    ensures
        sum == n1 + n2,
{
    n1 + n2
}

/// Twice the sum of two integers, as the Java entry point reports it.
pub fn doubled_sum(n1: i32, n2: i32) -> (result: i32)
    requires
        i32::MIN <= n1 + n2 <= i32::MAX,
        i32::MIN <= (n1 + n2) * 2 <= i32::MAX,
    ensures
        result == (n1 + n2) * 2,
{
    rust_add(n1, n2) * 2
}

} // verus!
