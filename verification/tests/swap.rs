use barter_execution::exchange::sushiswapv3::{configured_accounts, swap_transaction, SWAP_VALUE_WEI};

const ROUTER_ABI: &str = r#"[{"type":"function","name":"swapExactETHForTokens","inputs":[{"name":"amountOutMin","type":"uint256"},{"name":"path","type":"address[]"},{"name":"to","type":"address"},{"name":"deadline","type":"uint256"}],"outputs":[{"name":"amounts","type":"uint256[]"}],"stateMutability":"payable"}]"#;

fn word(n: u128) -> Vec<u8> {
    let mut w = vec![0u8; 16];
    w.extend_from_slice(&n.to_be_bytes());
    w
}

fn address_word(a: &[u8]) -> Vec<u8> {
    let mut w = vec![0u8; 12];
    w.extend_from_slice(a);
    w
}

#[test]
fn swap_transaction_encodes_the_router_call() {
    let weth = vec![0x11u8; 20];
    let recipient = vec![0x22u8; 20];
    let tx = swap_transaction(ROUTER_ABI.as_bytes(), &weth, &recipient, 1_700_000_000_000).unwrap();
    assert_eq!(tx.value, SWAP_VALUE_WEI);
    assert_eq!(tx.value, 50_000_000_000_000_000);
    assert_eq!(
        tx.to,
        vec![0x7a, 0x25, 0x0d, 0x56, 0x30, 0xb4, 0xcf, 0x53, 0x97, 0x39, 0xdf, 0x2c, 0x5d, 0xac, 0xb4, 0xc6, 0x59, 0xf2, 0x48, 0x8d]
    );
    let dai = [0xc7u8, 0xad, 0x46, 0xe0, 0xb8, 0xa4, 0x00, 0xbb, 0x3c, 0x91, 0x51, 0x20, 0xd2, 0x84, 0xaa, 0xfb, 0xa8, 0xfc, 0x47, 0x35];
    let mut expected = vec![0x7f, 0xf3, 0x6a, 0xb5];
    expected.extend(word(106_662_000_000));
    expected.extend(word(128));
    expected.extend(address_word(&recipient));
    expected.extend(word(1_700_000_000_000));
    expected.extend(word(2));
    expected.extend(address_word(&weth));
    expected.extend(address_word(&dai));
    assert_eq!(tx.data, expected);
}

#[test]
fn swap_transaction_needs_the_function_in_the_interface() {
    let weth = vec![0x11u8; 20];
    let recipient = vec![0x22u8; 20];
    assert!(swap_transaction(b"[]", &weth, &recipient, 1).is_none());
    assert!(swap_transaction(b"not json", &weth, &recipient, 1).is_none());
}

#[test]
fn configured_accounts_appends_the_parsed_address() {
    let node = vec![vec![1u8; 20]];
    let all = configured_accounts(node.clone(), "0x7a250d5630B4cF539739dF2C5dAcb4c659F2488D").unwrap();
    assert_eq!(all.len(), 2);
    assert_eq!(all[0], node[0]);
    assert_eq!(
        all[1],
        vec![0x7a, 0x25, 0x0d, 0x56, 0x30, 0xb4, 0xcf, 0x53, 0x97, 0x39, 0xdf, 0x2c, 0x5d, 0xac, 0xb4, 0xc6, 0x59, 0xf2, 0x48, 0x8d]
    );
    let spaced = configured_accounts(vec![], "7a250d5630b4cf539739df2c5dacb4c6 59f2488d").unwrap();
    assert_eq!(spaced[0], all[1]);
    assert!(configured_accounts(node.clone(), "0x7a25").is_none());
    assert!(configured_accounts(node, "0xzz250d5630B4cF539739dF2C5dAcb4c659F2488D").is_none());
}
