use channel_node::chain::Network;
use channel_node::funding::check_script;
use channel_node::funding::funding_address;
use channel_node::funding::signed_transaction;
use channel_node::funding::ScriptError;
use channel_node::funding::SignedError;
use channel_node::text::hex_str;

fn key_hash_script() -> Vec<u8> {
    vec![
        0x00, 0x14, 0x9c, 0x6f, 0xa3, 0xd9, 0x5c, 0x78, 0xc7, 0x52, 0xc2, 0xc6, 0x7d, 0x00, 0xef,
        0x33, 0x24, 0x98, 0x53, 0x5f, 0xa4, 0x21,
    ]
}

fn script_hash_script() -> Vec<u8> {
    vec![
        0x00, 0x20, 0x18, 0x63, 0x14, 0x3c, 0x14, 0xc5, 0x16, 0x68, 0x04, 0xbd, 0x19, 0x20, 0x33,
        0x56, 0xda, 0x13, 0x6c, 0x98, 0x56, 0x78, 0xcd, 0x4d, 0x27, 0xa1, 0xb8, 0xc6, 0x32, 0x96,
        0x04, 0x90, 0x32, 0x62,
    ]
}

fn taproot_script() -> Vec<u8> {
    vec![
        0x51, 0x20, 0x79, 0xbe, 0x66, 0x7e, 0xf9, 0xdc, 0xbb, 0xac, 0x55, 0xa0, 0x62, 0x95, 0xce,
        0x87, 0x0b, 0x07, 0x02, 0x9b, 0xfc, 0xdb, 0x2d, 0xce, 0x28, 0xd9, 0x59, 0xf2, 0x81, 0x5b,
        0x16, 0xf8, 0x17, 0x98,
    ]
}

fn transaction_bytes() -> Vec<u8> {
    let tx = bitcoin::Transaction {
        version: 2,
        lock_time: 0,
        input: vec![bitcoin::TxIn::default()],
        output: vec![bitcoin::TxOut {
            value: 100_000,
            script_pubkey: bitcoin::Script::from(script_hash_script()),
        }],
    };
    bitcoin::consensus::encode::serialize(&tx)
}

#[test]
fn witness_programs_pass_the_check() {
    assert_eq!(check_script(&key_hash_script()), Ok(()));
    assert_eq!(check_script(&script_hash_script()), Ok(()));
    assert_eq!(check_script(&taproot_script()), Ok(()));
    assert_eq!(check_script(&[0x60, 0x02, 0x75, 0x1e]), Ok(()));
}

#[test]
fn short_script_is_refused() {
    assert_eq!(check_script(&[]), Err(ScriptError::TooShort));
    assert_eq!(check_script(&[0x00, 0x01, 0xaa]), Err(ScriptError::TooShort));
    assert_eq!(funding_address(&[0x00, 0x01, 0xaa], Network::Bitcoin), Err(ScriptError::TooShort));
}

#[test]
fn wrong_length_byte_is_refused() {
    assert_eq!(check_script(&[0x00, 0x03, 0xaa, 0xbb]), Err(ScriptError::LengthMismatch));
    let mut script = key_hash_script();
    script.push(0);
    assert_eq!(check_script(&script), Err(ScriptError::LengthMismatch));
    assert_eq!(funding_address(&script, Network::Regtest), Err(ScriptError::LengthMismatch));
}

#[test]
fn version_above_sixteen_is_refused() {
    assert_eq!(check_script(&[0x61, 0x02, 0xaa, 0xbb]), Err(ScriptError::InvalidVersion));
    assert_eq!(check_script(&[0x11, 0x02, 0xaa, 0xbb]), Err(ScriptError::InvalidVersion));
    assert_eq!(check_script(&[0x50, 0x02, 0xaa, 0xbb]), Err(ScriptError::InvalidVersion));
    assert_eq!(check_script(&[0x76, 0x02, 0xaa, 0xbb]), Err(ScriptError::InvalidVersion));
    assert_eq!(check_script(&[0xff, 0x02, 0xaa, 0xbb]), Err(ScriptError::InvalidVersion));
    assert_eq!(
        funding_address(&[0x76, 0x02, 0xaa, 0xbb], Network::Testnet),
        Err(ScriptError::InvalidVersion)
    );
}

#[test]
fn wrong_program_length_is_refused() {
    let mut long = vec![0x51, 41];
    long.extend_from_slice(&[7u8; 41]);
    assert_eq!(check_script(&long), Err(ScriptError::InvalidProgramLength));
    let mut odd = vec![0x00, 21];
    odd.extend_from_slice(&[7u8; 21]);
    assert_eq!(check_script(&odd), Err(ScriptError::InvalidProgramLength));
    assert_eq!(funding_address(&odd, Network::Bitcoin), Err(ScriptError::InvalidProgramLength));
}

#[test]
fn address_of_a_key_hash_on_regtest() {
    assert_eq!(
        funding_address(&key_hash_script(), Network::Regtest),
        Ok("bcrt1qn3h68k2u0rr49skx05qw7veynpf4lfppd2demt".to_string())
    );
}

#[test]
fn address_of_a_script_hash_on_testnet() {
    assert_eq!(
        funding_address(&script_hash_script(), Network::Testnet),
        Ok("tb1qrp33g0q5c5txsp9arysrx4k6zdkfs4nce4xj0gdcccefvpysxf3q0sl5k7".to_string())
    );
}

#[test]
fn address_of_a_taproot_output_on_mainnet() {
    assert_eq!(
        funding_address(&taproot_script(), Network::Bitcoin),
        Ok("bc1p0xlxvlhemja6c4dqv22uapctqupfhlxm9h8z3k2e72q4k9hcz7vqzk5jj0".to_string())
    );
}

#[test]
fn address_depends_on_the_network() {
    let main = funding_address(&key_hash_script(), Network::Bitcoin).unwrap();
    let test = funding_address(&key_hash_script(), Network::Testnet).unwrap();
    let signet = funding_address(&key_hash_script(), Network::Signet).unwrap();
    assert!(main.starts_with("bc1q"));
    assert!(test.starts_with("tb1q"));
    assert_eq!(test, signet);
    assert_ne!(main, test);
}

#[test]
fn signed_transaction_is_read_from_its_hex() {
    let bytes = transaction_bytes();
    assert_eq!(signed_transaction(&hex_str(&bytes)), Ok(bytes.clone()));
    assert_eq!(signed_transaction(&hex_str(&bytes).to_uppercase()), Ok(bytes));
}

#[test]
fn text_that_is_no_hex_is_no_transaction() {
    assert_eq!(signed_transaction("xyz"), Err(SignedError::InvalidHex));
    assert_eq!(signed_transaction("abc"), Err(SignedError::InvalidHex));
    assert_eq!(signed_transaction("0x0200"), Err(SignedError::InvalidHex));
}

#[test]
fn bytes_that_do_not_decode_are_no_transaction() {
    assert_eq!(signed_transaction(""), Err(SignedError::InvalidTransaction));
    assert_eq!(signed_transaction("010203"), Err(SignedError::InvalidTransaction));
    let mut longer = transaction_bytes();
    longer.push(0);
    assert_eq!(signed_transaction(&hex_str(&longer)), Err(SignedError::InvalidTransaction));
    let mut shorter = transaction_bytes();
    shorter.pop();
    assert_eq!(signed_transaction(&hex_str(&shorter)), Err(SignedError::InvalidTransaction));
}
