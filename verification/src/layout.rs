//! The names under which the update log lies on the medium.
//!
//! The records of one channel lie together under the name of the channel: its
//! transaction id in hexadecimal, an underscore, and its output index in decimal. Each
//! record lies under its sequence number in decimal.

use crate::text::codes;
use crate::text::decimal;
use crate::text::decimal_chars;
use crate::text::hex_chars;
use crate::text::hex_codes;
use crate::text::hex_str;
use crate::text::hex_value;
use crate::text::is_hex;
use crate::text::lemma_decimal_is_ascii;
use crate::text::lemma_decimal_round_trip;
use crate::text::lemma_hex_chars_codes;
use crate::text::lemma_hex_round_trip;
use crate::text::nibble;
use crate::text::nibble_of;
use crate::text::number_of;
use crate::text::parse_decimal;
use crate::update_log::ChannelIdentity;
use vstd::prelude::*;
use vstd::slice::slice_subrange;
use vstd::string::StringExecFns;
use vstd::string::StringSliceAdditionalSpecFns;
use vstd::utf8::encode_utf8;
use vstd::utf8::is_ascii_chars;

verus! {

/// The name of a channel: the transaction id in sixty-four hexadecimal digits, an
/// underscore, the output index in decimal.
pub open spec fn channel_name(channel: ChannelIdentity) -> Seq<char> {
    hex_chars(channel.txid@) + seq!['_'] + decimal_chars(channel.index as nat)
}

/// The name of a record: its sequence number in decimal.
pub open spec fn record_name(sequence_no: u64) -> Seq<char> {
    decimal_chars(sequence_no as nat)
}

/// The channel that a name stands for, if it is the name of a channel. Hexadecimal
/// digits are read in either case.
pub open spec fn channel_of(name: Seq<u8>) -> Option<ChannelIdentity> {
    if name.len() >= 66 && is_hex(name.take(64)) && name[64] == 0x5f {
        match number_of(name.skip(65), u16::MAX as nat) {
            Some(index) => Some(
                ChannelIdentity { txid: txid_of(hex_value(name.take(64))), index: index as u16 },
            ),
            None => None,
        }
    } else {
        None
    }
}

/// The transaction id with the given thirty-two bytes.
pub open spec fn txid_of(bytes: Seq<u8>) -> [u8; 32] {
    choose|txid: [u8; 32]| txid@ == bytes
}

/// The sequence number that a name stands for, if it is the name of a record.
pub open spec fn sequence_no_of(name: Seq<u8>) -> Option<u64> {
    match number_of(name, u64::MAX as nat) {
        Some(n) => Some(n as u64),
        None => None,
    }
}

/// Writes the name of a channel.
pub fn channel_dir_name(channel: &ChannelIdentity) -> (name: String)
    ensures
        name@ == channel_name(*channel),
{
    let mut name = hex_str(channel.txid.as_slice());
    name.append("_");
    name.append(decimal(channel.index as u64).as_str());
    proof {
        reveal_strlit("_");
        assert("_"@ =~= seq!['_']);
    }
    name
}

/// Writes the name of a record.
pub fn record_file_name(sequence_no: u64) -> (name: String)
    ensures
        name@ == record_name(sequence_no),
{
    decimal(sequence_no)
}

/// Reads the name of a channel.
pub fn parse_channel_name(name: &str) -> (channel: Option<ChannelIdentity>)
    ensures
        channel == channel_of(name.spec_bytes()),
{
    let text = name.as_bytes();
    if text.len() < 66 {
        return None;
    }
    let mut txid: [u8; 32] = [0u8; 32];
    let mut i: usize = 0;
    while i < 32
        invariant
            i <= 32,
            text@ == name.spec_bytes(),
            text@.len() >= 66,
            forall|k: int| 0 <= k < 2 * i ==> (#[trigger] nibble_of(text@[k])) is Some,
            forall|k: int| 0 <= k < i ==> #[trigger] txid@[k] == hex_value(text@.take(64))[k],
        decreases 32 - i,
    {
        let high = nibble(text[2 * i]);
        let low = nibble(text[2 * i + 1]);
        match (high, low) {
            (Some(h), Some(l)) => {
                txid[i] = h * 16 + l;
                assert(text@.take(64)[2 * i] == text@[2 * i]);
                assert(text@.take(64)[2 * i + 1] == text@[2 * i + 1]);
            },
            _ => {
                proof {
                    let at = if high is None {
                        2 * i
                    } else {
                        2 * i + 1
                    };
                    assert(text@.take(64)[at as int] == text@[at as int]);
                    assert(nibble_of(text@.take(64)[at as int]) is None);
                }
                return None;
            },
        }
        i = i + 1;
    }
    proof {
        assert(is_hex(text@.take(64))) by {
            assert forall|k: int| 0 <= k < 64 implies (#[trigger] nibble_of(text@.take(64)[k]))
                is Some by {
                assert(text@.take(64)[k] == text@[k]);
            }
        }
        assert(txid@ =~= hex_value(text@.take(64)));
        lemma_txid_of(txid);
    }
    if text[64] != 0x5f {
        return None;
    }
    let digits = slice_subrange(text, 65, text.len());
    proof {
        assert(digits@ =~= text@.skip(65));
    }
    match parse_decimal(digits) {
        Some(index) => {
            if index > 0xffff {
                return None;
            }
            Some(ChannelIdentity { txid, index: index as u16 })
        },
        None => None,
    }
}

/// Reads the name of a record.
pub fn parse_record_name(name: &str) -> (sequence_no: Option<u64>)
    ensures
        sequence_no == sequence_no_of(name.spec_bytes()),
{
    parse_decimal(name.as_bytes())
}

/// A transaction id is the one with its bytes.
proof fn lemma_txid_of(txid: [u8; 32])
    ensures
        txid_of(txid@) == txid,
{
    let found = txid_of(txid@);
    assert(found@ == txid@);
    assert(found =~= txid);
}

/// The name of a channel reads back as the channel.
pub proof fn lemma_channel_name_round_trip(channel: ChannelIdentity)
    ensures
        channel_of(encode_utf8(channel_name(channel))) == Some(channel),
{
    let hex = hex_chars(channel.txid@);
    let index = decimal_chars(channel.index as nat);
    let name = channel_name(channel);
    lemma_hex_chars_codes(channel.txid@);
    lemma_hex_round_trip(channel.txid@);
    lemma_decimal_is_ascii(channel.index as nat);
    lemma_decimal_round_trip(channel.index as nat, u16::MAX as nat);
    lemma_hex_is_ascii(channel.txid@);
    assert(is_ascii_chars(name)) by {
        assert forall|i: int| 0 <= i < name.len() implies '\0' <= #[trigger] name[i] <= '\u{7f}' by {
            if i < 64 {
                assert(name[i] == hex[i]);
            } else if i == 64 {
            } else {
                assert(name[i] == index[i - 65]);
            }
        }
    }
    vstd::utf8::is_ascii_chars_encode_utf8(name);
    let bytes = encode_utf8(name);
    assert(bytes.take(64) =~= hex_codes(channel.txid@)) by {
        assert forall|i: int| 0 <= i < 64 implies bytes.take(64)[i] == hex_codes(channel.txid@)[i] by {
            assert(bytes[i] == name[i] as u8);
            assert(name[i] == hex[i]);
        }
    }
    assert(bytes.skip(65) =~= codes(index)) by {
        assert forall|i: int| 0 <= i < index.len() implies bytes.skip(65)[i] == codes(index)[i] by {
            assert(bytes[i + 65] == name[i + 65] as u8);
            assert(name[i + 65] == index[i]);
        }
    }
    assert(bytes[64] == name[64] as u8);
    lemma_txid_of(channel.txid);
}

/// The name of a record reads back as its sequence number.
pub proof fn lemma_record_name_round_trip(sequence_no: u64)
    ensures
        sequence_no_of(encode_utf8(record_name(sequence_no))) == Some(sequence_no),
{
    lemma_decimal_is_ascii(sequence_no as nat);
    lemma_decimal_round_trip(sequence_no as nat, u64::MAX as nat);
}

/// Hexadecimal text is made of ASCII characters.
proof fn lemma_hex_is_ascii(bytes: Seq<u8>)
    ensures
        is_ascii_chars(hex_chars(bytes)),
        hex_chars(bytes).len() == 2 * bytes.len(),
    decreases bytes.len(),
{
    if bytes.len() > 0 {
        lemma_hex_is_ascii(bytes.drop_last());
        let text = hex_chars(bytes);
        let head = hex_chars(bytes.drop_last());
        assert forall|i: int| 0 <= i < text.len() implies '\0' <= #[trigger] text[i] <= '\u{7f}' by {
            if i < head.len() {
                assert(text[i] == head[i]);
            }
        }
    }
}

} // verus!
