//! The read cursor.

use crate::describe::Describe;
use crate::error::Error;
use vstd::prelude::*;
use vstd::slice::slice_subrange;
use vstd::std_specs::convert::FromSpecImpl;
use vstd::string::StringExecFns;

verus! {

/// A forward-only cursor over a borrowed byte slice.
///
/// The view is what is still unread. Taking bytes shortens it from the front;
/// nothing is ever put back.
pub struct DStream<'a> {
    data: &'a [u8],
    len: usize,
}

impl<'a> DStream<'a> {
    #[verifier::type_invariant]
    spec fn inv(self) -> bool {
        self.len <= self.data@.len()
    }

    /// The bytes not yet taken.
    pub closed spec fn view(&self) -> Seq<u8> {
        self.data@.subrange(self.data@.len() - self.len, self.data@.len() as int)
    }

    /// The stream that has all of `buf` still to read.
    pub closed spec fn over(buf: &'a [u8]) -> Self {
        DStream { data: buf, len: buf@.len() as usize }
    }

    /// A stream over a buffer has the buffer's bytes to read.
    pub proof fn lemma_over(buf: &'a [u8])
        ensures
            Self::over(buf)@ == buf@,
    {
        vstd::slice::axiom_spec_len(buf);
        assert(Self::over(buf)@ =~= buf@);
    }

    /// Starts reading at the front of `buf`.
    pub fn new(buf: &'a [u8]) -> (stream: Self)
        ensures
            stream == Self::over(buf),
            stream@ == buf@,
    {
        let stream = DStream { data: buf, len: buf.len() };
        assert(stream@ =~= buf@);
        stream
    }

    /// How many bytes are left.
    pub fn remaining(&self) -> (n: usize)
        ensures
            n == self@.len(),
    {
        proof {
            use_type_invariant(self);
        }
        self.len
    }

    /// Takes the next `len` bytes, or none at all when fewer are left.
    pub fn take(&mut self, len: usize) -> (r: Result<&[u8], Error>)
        ensures
            len <= old(self)@.len() ==> (r matches Ok(bytes) && bytes@ == old(self)@.take(
                len as int,
            ) && final(self)@ == old(self)@.skip(len as int)),
            len > old(self)@.len() ==> (r == Err::<&[u8], Error>(
                Error::EndOfDStream { len: old(self)@.len() as usize, ok_len: len },
            ) && final(self)@ == old(self)@),
    {
        proof {
            use_type_invariant(&*self);
        }
        if self.len < len {
            return Err(Error::EndOfDStream { len: self.len, ok_len: len });
        }
        let start = self.data.len() - self.len;
        let stop = start + len;
        self.len -= len;
        let out = slice_subrange(self.data, start, stop);
        assert(out@ =~= old(self)@.take(len as int));
        assert(self@ =~= old(self)@.skip(len as int));
        Ok(out)
    }
}

/// The numeral of a number below sixteen, in capitals.
pub open spec fn hex_digit_text(digit: nat) -> Seq<char> {
    if digit == 0 {
        "0"@
    } else if digit == 1 {
        "1"@
    } else if digit == 2 {
        "2"@
    } else if digit == 3 {
        "3"@
    } else if digit == 4 {
        "4"@
    } else if digit == 5 {
        "5"@
    } else if digit == 6 {
        "6"@
    } else if digit == 7 {
        "7"@
    } else if digit == 8 {
        "8"@
    } else if digit == 9 {
        "9"@
    } else if digit == 10 {
        "A"@
    } else if digit == 11 {
        "B"@
    } else if digit == 12 {
        "C"@
    } else if digit == 13 {
        "D"@
    } else if digit == 14 {
        "E"@
    } else {
        "F"@
    }
}

/// A byte in hexadecimal, after `0x`, with no leading zero.
pub open spec fn hex_text(byte: u8) -> Seq<char> {
    if byte < 16 {
        "0x"@ + hex_digit_text(byte as nat)
    } else {
        "0x"@ + hex_digit_text(byte as nat / 16) + hex_digit_text(byte as nat % 16)
    }
}

/// Some bytes in hexadecimal, each followed by a comma.
pub open spec fn bytes_text(bytes: Seq<u8>) -> Seq<char>
    decreases bytes.len(),
{
    if bytes.len() == 0 {
        Seq::empty()
    } else {
        bytes_text(bytes.drop_last()) + hex_text(bytes.last()) + ","@
    }
}

/// The numeral of a number below sixteen, in capitals.
fn hex_digit(value: u8) -> (text: &'static str)
    requires
        value < 16,
    ensures
        text@ == hex_digit_text(value as nat),
{
    if value == 0 {
        "0"
    } else if value == 1 {
        "1"
    } else if value == 2 {
        "2"
    } else if value == 3 {
        "3"
    } else if value == 4 {
        "4"
    } else if value == 5 {
        "5"
    } else if value == 6 {
        "6"
    } else if value == 7 {
        "7"
    } else if value == 8 {
        "8"
    } else if value == 9 {
        "9"
    } else if value == 10 {
        "A"
    } else if value == 11 {
        "B"
    } else if value == 12 {
        "C"
    } else if value == 13 {
        "D"
    } else if value == 14 {
        "E"
    } else {
        "F"
    }
}

impl<'a> Describe for DStream<'a> {
    /// The bytes not yet taken, in hexadecimal, between square brackets.
    open spec fn description(&self) -> Seq<char> {
        "["@ + bytes_text(self@) + "]"@
    }

    fn describe(&self) -> (text: String) {
        proof {
            use_type_invariant(self);
        }
        let start = self.data.len() - self.len;
        let mut list = String::new();
        let mut done: usize = 0;
        assert(self@.take(0) =~= Seq::<u8>::empty());
        while done < self.len
            invariant
                done <= self.len <= self.data@.len() <= usize::MAX,
                start == self.data@.len() - self.len,
                list@ == bytes_text(self@.take(done as int)),
            decreases self.len - done,
        {
            let byte = self.data[start + done];
            proof {
                assert(self@.take(done + 1).drop_last() =~= self@.take(done as int));
                assert(self@.take(done + 1).last() == byte);
            }
            let mut item = String::from_str("0x");
            if byte >= 16 {
                item.append(hex_digit(byte / 16));
                item.append(hex_digit(byte % 16));
            } else {
                item.append(hex_digit(byte));
            }
            list.append(item.as_str());
            list.append(",");
            done = done + 1;
        }
        assert(self@.take(self.len as int) =~= self@);
        let mut text = String::from_str("[");
        text.append(list.as_str());
        text.append("]");
        text
    }
}

impl<'a> From<&'a [u8]> for DStream<'a> {
    fn from(value: &'a [u8]) -> (stream: Self) {
        Self::new(value)
    }
}

impl<'a> FromSpecImpl<&'a [u8]> for DStream<'a> {
    open spec fn obeys_from_spec() -> bool {
        true
    }

    open spec fn from_spec(value: &'a [u8]) -> Self {
        Self::over(value)
    }
}

impl<'a, const N: usize> From<&'a [u8; N]> for DStream<'a> {
    fn from(value: &'a [u8; N]) -> (stream: Self) {
        Self::new(value)
    }
}

impl<'a, const N: usize> FromSpecImpl<&'a [u8; N]> for DStream<'a> {
    open spec fn obeys_from_spec() -> bool {
        true
    }

    open spec fn from_spec(value: &'a [u8; N]) -> Self {
        Self::over(vstd::array::spec_array_as_slice(value))
    }
}

impl<'a> Clone for DStream<'a> {
    /// A second cursor at the same place in the same input.
    fn clone(&self) -> (copy: Self)
        ensures
            copy@ == self@,
    {
        proof {
            use_type_invariant(self);
        }
        DStream { data: self.data, len: self.len }
    }
}

} // verus!
