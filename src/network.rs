use vstd::prelude::*;

use crate::types::string_seq_view;

verus! {

/// The chain a contract account lives on.
#[derive(Clone, Copy, Debug, PartialEq, Eq, Structural)]
pub enum Network {
    Mainnet,
    Testnet,
}

/// Accounts that end in `.testnet` live on the test network; all others on
/// the main network.
pub open spec fn network_of(account: Seq<char>) -> Network {
    let suffix = ".testnet"@;
    if account.len() >= suffix.len() && account.subrange(account.len() - suffix.len(), account.len() as int)
        == suffix {
        Network::Testnet
    } else {
        Network::Mainnet
    }
}

/// Whether `s` ends with `suffix`.
pub fn ends_with(s: &str, suffix: &str) -> (r: bool)
    ensures
        r == (s@.len() >= suffix@.len() && s@.subrange(s@.len() - suffix@.len(), s@.len() as int) == suffix@),
{
    let n = s.unicode_len();
    let m = suffix.unicode_len();
    if n < m {
        return false;
    }
    let mut i: usize = 0;
    while i < m
        invariant
            n == s@.len(),
            m == suffix@.len(),
            m <= n,
            i <= m,
            forall|j: int| 0 <= j < i ==> s@[n - m + j] == suffix@[j],
        decreases m - i,
    {
        if s.get_char(n - m + i) != suffix.get_char(i) {
            assert(s@.subrange(n - m, n as int)[i as int] != suffix@[i as int]);
            return false;
        }
        i = i + 1;
    }
    assert(s@.subrange(n - m, n as int) =~= suffix@);
    true
}

impl Network {
    /// The network of a contract account, told by its suffix.
    pub fn from_account_id(account_id: &str) -> (r: Network)
        ensures
            r == network_of(account_id@),
    {
        if ends_with(account_id, ".testnet") {
            Network::Testnet
        } else {
            Network::Mainnet
        }
    }
}

/// The token contracts a new contract trusts on each network.
pub open spec fn default_trusted(network: Network) -> Seq<Seq<char>> {
    match network {
        Network::Testnet => seq!["nft.helpua.testnet"@, "nft2.helpua.testnet"@, "paras-token-v2.testnet"@, "nearkingdoms.testnet"@],
        Network::Mainnet => seq!["x.paras.near"@, "nft.herewallet.near"@, "tinkerunion_nft.enleap.near"@, "secretskelliessociety.near"@, "near-punks.near"@, "asac.near"@, "ff.nekotoken.near"@, "spin-nft-contract.near"@, "mrbrownproject.near"@, "nft.thedons.near"@],
    }
}

/// The token contracts a new contract trusts on each network.
pub fn get_trusted_nft_contracts(network: Network) -> (r: Vec<String>)
    ensures
        string_seq_view(r@) == default_trusted(network),
{
    let mut r: Vec<String> = Vec::new();
    match network {
        Network::Testnet => {
            r.push("nft.helpua.testnet".to_owned());
            r.push("nft2.helpua.testnet".to_owned());
            r.push("paras-token-v2.testnet".to_owned());
            r.push("nearkingdoms.testnet".to_owned());
        },
        Network::Mainnet => {
            r.push("x.paras.near".to_owned());
            r.push("nft.herewallet.near".to_owned());
            r.push("tinkerunion_nft.enleap.near".to_owned());
            r.push("secretskelliessociety.near".to_owned());
            r.push("near-punks.near".to_owned());
            r.push("asac.near".to_owned());
            r.push("ff.nekotoken.near".to_owned());
            r.push("spin-nft-contract.near".to_owned());
            r.push("mrbrownproject.near".to_owned());
            r.push("nft.thedons.near".to_owned());
        },
    }
    assert(string_seq_view(r@) =~= default_trusted(network));
    r
}

/// The identity registry queried before a reward is transferred.
pub fn get_registry_iah_contract(network: Network) -> (r: String)
    ensures
        network == Network::Mainnet ==> r@ == "registry.i-am-human.near"@,
        network == Network::Testnet ==> r@ == "registry-v2.i-am-human.testnet"@,
{
    match network {
        Network::Mainnet => "registry.i-am-human.near".to_owned(),
        Network::Testnet => "registry-v2.i-am-human.testnet".to_owned(),
    }
}

/// The issuer whose credential counts as verification.
pub fn get_issuer_iah_contract(network: Network) -> (r: String)
    ensures
        network == Network::Mainnet ==> r@ == "fractal.i-am-human.near"@,
        network == Network::Testnet ==> r@ == "fractal-v2.i-am-human.testnet"@,
{
    match network {
        Network::Mainnet => "fractal.i-am-human.near".to_owned(),
        Network::Testnet => "fractal-v2.i-am-human.testnet".to_owned(),
    }
}

} // verus!
