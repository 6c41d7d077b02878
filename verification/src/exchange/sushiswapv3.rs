//! The SushiSwap V3 client: its account addresses, the deadline it gives a swap, and the
//! transaction that swaps ether for DAI through the Uniswap V2 router.
use vstd::prelude::*;
use std::str::FromStr;
use web3::contract::tokens::Tokenize;
use crate::support::{duration_millis, max_duration_millis, since_epoch, system_now};

verus! {

/// The value of a hexadecimal digit, either case; `None` for any other character.
pub open spec fn hex_value(c: char) -> Option<int> {
    if '0' <= c <= '9' {
        Some(c as int - 48)
    } else if 'a' <= c <= 'f' {
        Some(c as int - 87)
    } else if 'A' <= c <= 'F' {
        Some(c as int - 55)
    } else {
        None
    }
}

/// A space, tab, carriage return or line feed.
pub open spec fn is_blank(c: char) -> bool {
    c == ' ' || c == '\t' || c == '\r' || c == '\n'
}

/// The 20 bytes, big endian, that the hexadecimal text `s` gives: `s` may start with "0x", and
/// past that holds only hexadecimal digits, 40 of them, and blanks, which are skipped.
pub open spec fn address_from_str(s: Seq<char>) -> Option<Seq<u8>> {
    let h = if s.len() >= 2 && s[0] == '0' && s[1] == 'x' { s.skip(2) } else { s };
    let digits = h.filter(|c: char| !is_blank(c));
    if (forall|i: int| 0 <= i < h.len() ==> is_blank(h[i]) || hex_value(h[i]) is Some) && digits.len() == 40 {
        Some(Seq::new(20, |i: int| (hex_value(digits[2 * i]).unwrap() * 16 + hex_value(digits[2 * i + 1]).unwrap()) as u8))
    } else {
        None
    }
}

/// Calls `H160::from_str` (fixed-hash, through `web3::types`) on `s` and takes its bytes: it
/// strips a leading "0x", skips blanks, reads two hexadecimal digits per byte, big endian, and
/// fails unless exactly 20 bytes come out.
#[verifier::external_body]
pub(crate) fn parse_address(s: &str) -> (r: Option<Vec<u8>>)
    ensures
        r is Some <==> address_from_str(s@) is Some,
        r matches Some(b) ==> Some(b@) == address_from_str(s@),
{
    match web3::types::H160::from_str(s) {
        Ok(address) => Some(address.as_bytes().to_vec()),
        Err(_) => None,
    }
}

/// The node's accounts with the configured account `address` added last; `None` where
/// `address` is not a hexadecimal address.
pub fn configured_accounts(accounts: Vec<Vec<u8>>, address: &str) -> (r: Option<Vec<Vec<u8>>>)
    ensures
        r is Some <==> address_from_str(address@) is Some,
        r matches Some(all) ==> {
            &&& all@.len() == accounts@.len() + 1
            &&& forall|i: int| 0 <= i < accounts@.len() ==> #[trigger] all@[i] == accounts@[i]
            &&& Some(all@[accounts@.len() as int]@) == address_from_str(address@)
        },
{
    match parse_address(address) {
        None => None,
        Some(parsed) => {
            let mut all = accounts;
            all.push(parsed);
            Some(all)
        },
    }
}

/// The call data of `swapExactETHForTokens(amountOutMin, path, to, deadline)` that the contract
/// interface `abi` (JSON) gives, or `None` where `abi` does not parse, has no such function, or
/// takes other arguments.
pub uninterp spec fn swap_exact_eth_for_tokens_data(abi: Seq<u8>, amount_out_min: u128, path: Seq<Seq<u8>>, to: Seq<u8>, deadline: u128) -> Option<Seq<u8>>;

/// Calls `ethabi::Contract::load` on `abi`, then `Contract::function("swapExactETHForTokens")`
/// and `Function::encode_input` with the amount, the path of addresses, the recipient and the
/// deadline as tokens. The result is a function of the arguments alone; it is named, not stated.
#[verifier::external_body]
pub(crate) fn encode_swap_exact_eth_for_tokens(
    abi: &[u8],
    amount_out_min: u128,
    path: &Vec<Vec<u8>>,
    to: &Vec<u8>,
    deadline: u128,
) -> (r: Option<Vec<u8>>)
    requires
        forall|i: int| 0 <= i < path@.len() ==> (#[trigger] path@[i])@.len() == 20,
        to@.len() == 20,
    ensures
        r is Some <==> swap_exact_eth_for_tokens_data(abi@, amount_out_min, path@.map_values(|p: Vec<u8>| p@), to@, deadline) is Some,
        r matches Some(d) ==> Some(d@) == swap_exact_eth_for_tokens_data(abi@, amount_out_min, path@.map_values(|p: Vec<u8>| p@), to@, deadline),
{
    let contract = web3::ethabi::Contract::load(abi).ok()?;
    let path: Vec<web3::types::Address> = path.iter().map(|p| web3::types::Address::from_slice(p)).collect();
    let to = web3::types::Address::from_slice(to);
    let params = (web3::types::U256::from(amount_out_min), path, to, web3::types::U256::from(deadline));
    contract.function("swapExactETHForTokens").ok()?.encode_input(&params.into_tokens()).ok()
}

/// The Uniswap V2 router02 contract, 0x7a250d5630B4cF539739dF2C5dAcb4c659F2488D.
pub open spec fn router02() -> Seq<u8> {
    seq![0x7au8, 0x25, 0x0d, 0x56, 0x30, 0xb4, 0xcf, 0x53, 0x97, 0x39, 0xdf, 0x2c, 0x5d, 0xac, 0xb4, 0xc6, 0x59, 0xf2, 0x48, 0x8d]
}

/// The DAI token, 0xc7ad46e0b8a400bb3c915120d284aafba8fc4735.
pub open spec fn dai() -> Seq<u8> {
    seq![0xc7u8, 0xad, 0x46, 0xe0, 0xb8, 0xa4, 0x00, 0xbb, 0x3c, 0x91, 0x51, 0x20, 0xd2, 0x84, 0xaa, 0xfb, 0xa8, 0xfc, 0x47, 0x35]
}

/// The least amount of DAI, in its smallest units, that the swap accepts.
pub const SWAP_AMOUNT_OUT_MIN: u128 = 106_662_000_000;

/// The ether that the swap pays, in wei: a twentieth of an ether.
pub const SWAP_VALUE_WEI: u128 = 50_000_000_000_000_000;

/// A transaction to send: the contract it calls, the wei it pays, and its call data.
#[derive(Debug)]
pub struct SwapTransaction {
    pub to: Vec<u8>,
    pub value: u128,
    pub data: Vec<u8>,
}

/// The transaction that swaps a twentieth of an ether for at least `SWAP_AMOUNT_OUT_MIN` DAI
/// through the router, along the path from `weth` (the router's wrapped ether) to DAI, paying
/// `recipient`, valid until `deadline`; `None` where the router interface `abi` gives no call
/// data for it.
pub fn swap_transaction(abi: &[u8], weth: &Vec<u8>, recipient: &Vec<u8>, deadline: u128) -> (r: Option<SwapTransaction>)
    requires
        weth@.len() == 20,
        recipient@.len() == 20,
    ensures
        r is Some <==> swap_exact_eth_for_tokens_data(abi@, SWAP_AMOUNT_OUT_MIN, seq![weth@, dai()], recipient@, deadline) is Some,
        r matches Some(t) ==> {
            &&& t.to@ == router02()
            &&& t.value == SWAP_VALUE_WEI
            &&& Some(t.data@) == swap_exact_eth_for_tokens_data(abi@, SWAP_AMOUNT_OUT_MIN, seq![weth@, dai()], recipient@, deadline)
        },
{
    let dai_address: Vec<u8> = vec![0xc7u8, 0xad, 0x46, 0xe0, 0xb8, 0xa4, 0x00, 0xbb, 0x3c, 0x91, 0x51, 0x20, 0xd2, 0x84, 0xaa, 0xfb, 0xa8, 0xfc, 0x47, 0x35];
    assert(dai_address@ =~= dai());
    let path: Vec<Vec<u8>> = vec![weth.clone(), dai_address];
    assert(path@.map_values(|p: Vec<u8>| p@) =~= seq![weth@, dai()]);
    match encode_swap_exact_eth_for_tokens(abi, SWAP_AMOUNT_OUT_MIN, &path, recipient, deadline) {
        None => None,
        Some(data) => {
            let to: Vec<u8> = vec![0x7au8, 0x25, 0x0d, 0x56, 0x30, 0xb4, 0xcf, 0x53, 0x97, 0x39, 0xdf, 0x2c, 0x5d, 0xac, 0xb4, 0xc6, 0x59, 0xf2, 0x48, 0x8d];
            assert(to@ =~= router02());
            Some(SwapTransaction { to, value: SWAP_VALUE_WEI, data })
        },
    }
}

/// The time `millis_in_future` milliseconds after `now_millis`.
pub fn timestamp_after(now_millis: u128, millis_in_future: u128) -> (r: u128)
    requires
        now_millis + millis_in_future <= u128::MAX,
    ensures
        r == now_millis + millis_in_future,
{
    now_millis + millis_in_future
}

/// The time, in milliseconds since the Unix epoch, `millis_in_future` milliseconds from now;
/// `None` where the system clock reads a time before the epoch, or that time does not fit in a
/// `u128`.
pub fn valid_timestamp(millis_in_future: u128) -> (r: Option<u128>)
    ensures
        r matches Some(t) ==> millis_in_future <= t <= millis_in_future + max_duration_millis(),
{
    let now = system_now();
    match since_epoch(&now) {
        Some(elapsed) => {
            let now_millis = duration_millis(&elapsed);
            if now_millis > u128::MAX - millis_in_future {
                None
            } else {
                Some(timestamp_after(now_millis, millis_in_future))
            }
        },
        None => None,
    }
}

} // verus!
