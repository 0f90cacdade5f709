//! Blocks in the form of the `sf.arweave.type.v1` protobuf messages, and their conversion
//! from the JSON form: every binary field is decoded from Base64-URL.

use vstd::prelude::*;
use crate::result::{Base64DecodeError, Error};
use crate::text::str_eq;
use crate::types;

verus! {

/// A tag.
#[derive(Debug, Clone)]
pub struct Tag {
    pub name: Vec<u8>,
    pub value: Vec<u8>,
}

/// A transaction.
#[derive(Debug, Clone)]
pub struct Transaction {
    pub format: u32,
    pub id: Vec<u8>,
    pub last_tx: Vec<u8>,
    pub owner: Vec<u8>,
    pub tags: Vec<Tag>,
    pub target: Vec<u8>,
    pub quantity: String,
    pub data: Vec<u8>,
    pub data_size: String,
    pub data_root: Vec<u8>,
    pub signature: Vec<u8>,
    pub reward: String,
}

/// A proof of access.
#[derive(Debug, Clone)]
pub struct ProofOfAccess {
    pub option: String,
    pub tx_path: Vec<u8>,
    pub data_path: Vec<u8>,
    pub chunk: Vec<u8>,
}

/// A block.
#[derive(Debug, Clone)]
pub struct Block {
    pub ver: u32,
    pub indep_hash: Vec<u8>,
    pub nonce: Vec<u8>,
    pub previous_block: Vec<u8>,
    pub timestamp: u64,
    pub last_retarget: u64,
    pub diff: String,
    pub height: u64,
    pub hash: Vec<u8>,
    pub tx_root: Option<Vec<u8>>,
    pub txs: Vec<Transaction>,
    pub wallet_list: Vec<u8>,
    pub reward_addr: Vec<u8>,
    pub tags: Vec<Tag>,
    pub reward_pool: String,
    pub weave_size: String,
    pub block_size: String,
    pub cumulative_diff: Option<String>,
    pub hash_list: Vec<Vec<u8>>,
    pub hash_list_merkle: Option<Vec<u8>>,
    pub poa: Option<ProofOfAccess>,
}

pub ghost struct TagView {
    pub name: Seq<u8>,
    pub value: Seq<u8>,
}

pub ghost struct TransactionView {
    pub format: u32,
    pub id: Seq<u8>,
    pub last_tx: Seq<u8>,
    pub owner: Seq<u8>,
    pub tags: Seq<TagView>,
    pub target: Seq<u8>,
    pub quantity: Seq<char>,
    pub data: Seq<u8>,
    pub data_size: Seq<char>,
    pub data_root: Seq<u8>,
    pub signature: Seq<u8>,
    pub reward: Seq<char>,
}

pub ghost struct ProofOfAccessView {
    pub option: Seq<char>,
    pub tx_path: Seq<u8>,
    pub data_path: Seq<u8>,
    pub chunk: Seq<u8>,
}

pub ghost struct BlockView {
    pub ver: u32,
    pub indep_hash: Seq<u8>,
    pub nonce: Seq<u8>,
    pub previous_block: Seq<u8>,
    pub timestamp: u64,
    pub last_retarget: u64,
    pub diff: Seq<char>,
    pub height: u64,
    pub hash: Seq<u8>,
    pub tx_root: Option<Seq<u8>>,
    pub txs: Seq<TransactionView>,
    pub wallet_list: Seq<u8>,
    pub reward_addr: Seq<u8>,
    pub tags: Seq<TagView>,
    pub reward_pool: Seq<char>,
    pub weave_size: Seq<char>,
    pub block_size: Seq<char>,
    pub cumulative_diff: Option<Seq<char>>,
    pub hash_list: Seq<Seq<u8>>,
    pub hash_list_merkle: Option<Seq<u8>>,
    pub poa: Option<ProofOfAccessView>,
}

impl View for Tag {
    type V = TagView;

    open spec fn view(&self) -> TagView {
        TagView { name: self.name@, value: self.value@ }
    }
}

impl View for Transaction {
    type V = TransactionView;

    open spec fn view(&self) -> TransactionView {
        TransactionView {
            format: self.format,
            id: self.id@,
            last_tx: self.last_tx@,
            owner: self.owner@,
            tags: self.tags@.map_values(|t: Tag| t@),
            target: self.target@,
            quantity: self.quantity@,
            data: self.data@,
            data_size: self.data_size@,
            data_root: self.data_root@,
            signature: self.signature@,
            reward: self.reward@,
        }
    }
}

impl View for ProofOfAccess {
    type V = ProofOfAccessView;

    open spec fn view(&self) -> ProofOfAccessView {
        ProofOfAccessView {
            option: self.option@,
            tx_path: self.tx_path@,
            data_path: self.data_path@,
            chunk: self.chunk@,
        }
    }
}

pub open spec fn opt_bytes_view(o: Option<Vec<u8>>) -> Option<Seq<u8>> {
    match o {
        Some(v) => Some(v@),
        None => None,
    }
}

pub open spec fn opt_text_view(o: Option<String>) -> Option<Seq<char>> {
    match o {
        Some(v) => Some(v@),
        None => None,
    }
}

pub open spec fn opt_poa_view(o: Option<ProofOfAccess>) -> Option<ProofOfAccessView> {
    match o {
        Some(v) => Some(v@),
        None => None,
    }
}

impl View for Block {
    type V = BlockView;

    open spec fn view(&self) -> BlockView {
        BlockView {
            ver: self.ver,
            indep_hash: self.indep_hash@,
            nonce: self.nonce@,
            previous_block: self.previous_block@,
            timestamp: self.timestamp,
            last_retarget: self.last_retarget,
            diff: self.diff@,
            height: self.height,
            hash: self.hash@,
            tx_root: opt_bytes_view(self.tx_root),
            txs: self.txs@.map_values(|t: Transaction| t@),
            wallet_list: self.wallet_list@,
            reward_addr: self.reward_addr@,
            tags: self.tags@.map_values(|t: Tag| t@),
            reward_pool: self.reward_pool@,
            weave_size: self.weave_size@,
            block_size: self.block_size@,
            cumulative_diff: opt_text_view(self.cumulative_diff),
            hash_list: self.hash_list@.map_values(|h: Vec<u8>| h@),
            hash_list_merkle: opt_bytes_view(self.hash_list_merkle),
            poa: opt_poa_view(self.poa),
        }
    }
}

/// What `base64_url::decode` gives for a text: the bytes, or why the text is not an
/// encoding.
pub uninterp spec fn base64_url_decoded(input: Seq<char>) -> Result<Seq<u8>, Base64DecodeError>;

/// `base64_url::decode`: the result is a function of the text alone.
#[verifier::external_body]
fn decode_base64_url(s: &str) -> (res: Result<Vec<u8>, Base64DecodeError>)
    ensures
        base64_url_decoded(s@) == (match res {
            Ok(v) => Ok(v@),
            Err(e) => Err(e),
        }),
{
    match base64_url::decode(s) {
        Ok(v) => Ok(v),
        Err(base64_url::base64::DecodeError::InvalidByte(i, b)) => Err(Base64DecodeError::InvalidByte(i, b)),
        Err(base64_url::base64::DecodeError::InvalidLength) => Err(Base64DecodeError::InvalidLength),
        Err(base64_url::base64::DecodeError::InvalidLastSymbol(i, b)) => Err(
            Base64DecodeError::InvalidLastSymbol(i, b),
        ),
    }
}

/// The text that stands for an empty reward address.
pub const UNCLAIMED: &'static str = "unclaimed";

/// What `bd` gives: `unclaimed` decodes to no bytes, any other text as Base64-URL.
pub open spec fn bd_spec(s: Seq<char>) -> Result<Seq<u8>, Error> {
    if s == UNCLAIMED@ {
        Ok(Seq::empty())
    } else {
        decoded_result(base64_url_decoded(s))
    }
}

/// A decoding result, with the decoding error taken as an error of the library.
pub open spec fn decoded_result(r: Result<Seq<u8>, Base64DecodeError>) -> Result<Seq<u8>, Error> {
    match r {
        Ok(b) => Ok(b),
        Err(e) => Err(Error::Base64Decode(e)),
    }
}

/// Takes the result of a Base64-URL decoding as a result of the library.
pub fn decoded(r: Result<Vec<u8>, Base64DecodeError>) -> (res: Result<Vec<u8>, Error>)
    ensures
        decoded_result(match r {
            Ok(v) => Ok(v@),
            Err(e) => Err(e),
        }) == (match res {
            Ok(v) => Ok(v@),
            Err(e) => Err(e),
        }),
{
    match r {
        Ok(v) => Ok(v),
        Err(e) => Err(Error::Base64Decode(e)),
    }
}

/// decode string to bytes with base64url
pub fn bd(s: &str) -> (res: Result<Vec<u8>, Error>)
    ensures
        bd_spec(s@) == (match res {
            Ok(v) => Ok(v@),
            Err(e) => Err(e),
        }),
{
    // parse empty reward addr to vec![]
    if str_eq(s, UNCLAIMED) {
        return Ok(Vec::new());
    }
    decoded(decode_base64_url(s))
}

/// How many characters the Base64-URL encoding of `n` bytes takes, without padding: four
/// for every three bytes, and two or three more for a final group of one or two bytes.
pub open spec fn encoded_len(n: nat) -> nat {
    4 * (n / 3) + if n % 3 == 0 {
        0nat
    } else if n % 3 == 1 {
        2nat
    } else {
        3nat
    }
}

/// What `base64_url::encode` gives for some bytes.
pub uninterp spec fn base64_url_encoded(input: Seq<u8>) -> Seq<char>;

/// `base64_url::encode` (`base64::encode_config` with the URL-safe alphabet and no
/// padding): the text is a function of the bytes alone, its length is `encoded_len` of
/// theirs, and decoding it gives the bytes back.
#[verifier::external_body]
fn encode_base64_url(bytes: &[u8]) -> (res: String)
    ensures
        res@ == base64_url_encoded(bytes@),
        res@.len() == encoded_len(bytes@.len()),
        base64_url_decoded(res@) is Ok,
        base64_url_decoded(res@)->Ok_0 == bytes@,
{
    base64_url::encode(bytes)
}

/// encode bytes to string with base64url; `bd` gives the bytes back
pub fn be(bytes: &[u8]) -> (res: String)
    ensures
        res@ == base64_url_encoded(bytes@),
        bd_spec(res@) == Ok::<Seq<u8>, Error>(bytes@),
{
    let res = encode_base64_url(bytes);
    proof {
        reveal_strlit("unclaimed");
        assert(UNCLAIMED@.len() == 9);
        if res@ == UNCLAIMED@ {
            let n = bytes@.len();
            assert(encoded_len(n) % 4 != 1) by (nonlinear_arith)
                requires
                    encoded_len(n) == 4 * (n / 3) + if n % 3 == 0 {
                        0nat
                    } else if n % 3 == 1 {
                        2nat
                    } else {
                        3nat
                    },
            ;
        }
    }
    res
}

/// `bd` fails exactly on the texts other than `unclaimed` that are not Base64-URL
/// encodings, and then with the decoding error.
pub proof fn lemma_bd_error(s: Seq<char>)
    ensures
        bd_spec(s) is Err <==> (s != UNCLAIMED@ && base64_url_decoded(s) is Err),
        bd_spec(s) is Err ==> bd_spec(s) == Err::<Seq<u8>, Error>(
            Error::Base64Decode(base64_url_decoded(s)->Err_0),
        ),
{
}

/// A field that is decoded where it can be, and left out where it cannot.
pub open spec fn bd_or_none(o: Option<String>) -> Option<Seq<u8>> {
    match o {
        Some(r) => match bd_spec(r@) {
            Ok(b) => Some(b),
            Err(_) => None,
        },
        None => None,
    }
}

fn bd_ok(o: Option<String>) -> (res: Option<Vec<u8>>)
    ensures
        opt_bytes_view(res) == bd_or_none(o),
{
    match o {
        Some(r) => match bd(r.as_str()) {
            Ok(b) => Some(b),
            Err(_) => None,
        },
        None => None,
    }
}


/// What converting a tag gives.
pub open spec fn tag_from_spec(tag: types::Tag) -> Result<TagView, Error> {
    match bd_spec(tag.name@) {
        Err(e) => Err(e),
        Ok(name) => match bd_spec(tag.value@) {
            Err(e) => Err(e),
            Ok(value) => Ok(TagView { name, value }),
        },
    }
}

/// What converting the tags one after the other gives: all of them, or the error of the
/// first that fails.
pub open spec fn tags_from_spec(tags: Seq<types::Tag>) -> Result<Seq<TagView>, Error>
    decreases tags.len(),
{
    if tags.len() == 0 {
        Ok(Seq::empty())
    } else {
        match tags_from_spec(tags.drop_last()) {
            Err(e) => Err(e),
            Ok(done) => match tag_from_spec(tags.last()) {
                Err(e) => Err(e),
                Ok(t) => Ok(done.push(t)),
            },
        }
    }
}

/// What converting a proof of access gives.
pub open spec fn poa_from_spec(poa: types::Poa) -> Result<ProofOfAccessView, Error> {
    match bd_spec(poa.tx_path@) {
        Err(e) => Err(e),
        Ok(tx_path) => match bd_spec(poa.data_path@) {
            Err(e) => Err(e),
            Ok(data_path) => match bd_spec(poa.chunk@) {
                Err(e) => Err(e),
                Ok(chunk) => Ok(ProofOfAccessView { option: poa.option@, tx_path, data_path, chunk }),
            },
        },
    }
}

/// What converting a transaction gives; the fields are decoded in the order of the
/// message and the first that fails gives the error.
pub open spec fn transaction_from_spec(tx: types::Transaction) -> Result<TransactionView, Error> {
    match bd_spec(tx.id@) {
        Err(e) => Err(e),
        Ok(id) => match bd_spec(tx.last_tx@) {
            Err(e) => Err(e),
            Ok(last_tx) => match bd_spec(tx.owner@) {
                Err(e) => Err(e),
                Ok(owner) => match tags_from_spec(tx.tags@) {
                    Err(e) => Err(e),
                    Ok(tags) => match bd_spec(tx.target@) {
                        Err(e) => Err(e),
                        Ok(target) => match bd_spec(tx.data@) {
                            Err(e) => Err(e),
                            Ok(data) => match bd_spec(tx.data_root@) {
                                Err(e) => Err(e),
                                Ok(data_root) => match bd_spec(tx.signature@) {
                                    Err(e) => Err(e),
                                    Ok(signature) => Ok(
                                        TransactionView {
                                            format: tx.format,
                                            id,
                                            last_tx,
                                            owner,
                                            tags,
                                            target,
                                            quantity: tx.quantity@,
                                            data,
                                            data_size: tx.data_size@,
                                            data_root,
                                            signature,
                                            reward: tx.reward@,
                                        },
                                    ),
                                },
                            },
                        },
                    },
                },
            },
        },
    }
}

/// What converting the transactions one after the other gives.
pub open spec fn transactions_from_spec(txs: Seq<types::Transaction>) -> Result<Seq<TransactionView>, Error>
    decreases txs.len(),
{
    if txs.len() == 0 {
        Ok(Seq::empty())
    } else {
        match transactions_from_spec(txs.drop_last()) {
            Err(e) => Err(e),
            Ok(done) => match transaction_from_spec(txs.last()) {
                Err(e) => Err(e),
                Ok(t) => Ok(done.push(t)),
            },
        }
    }
}

/// A proof of access that is converted where it can be, and left out where it cannot.
pub open spec fn poa_or_none(o: Option<types::Poa>) -> Option<ProofOfAccessView> {
    match o {
        Some(p) => match poa_from_spec(p) {
            Ok(v) => Some(v),
            Err(_) => None,
        },
        None => None,
    }
}

/// What converting a block gives: the fields are decoded in the order of the message and
/// the first that fails gives the error; `tx_root`, `hash_list_merkle` and `poa` are left
/// out where they cannot be converted, `hash_list` is empty and `ver` is 1.
pub open spec fn block_from_spec(b: types::FirehoseBlock) -> Result<BlockView, Error> {
    match bd_spec(b.indep_hash@) {
        Err(e) => Err(e),
        Ok(indep_hash) => match bd_spec(b.nonce@) {
            Err(e) => Err(e),
            Ok(nonce) => match bd_spec(b.previous_block@) {
                Err(e) => Err(e),
                Ok(previous_block) => match bd_spec(b.hash@) {
                    Err(e) => Err(e),
                    Ok(hash) => match transactions_from_spec(b.txs@) {
                        Err(e) => Err(e),
                        Ok(txs) => match bd_spec(b.wallet_list@) {
                            Err(e) => Err(e),
                            Ok(wallet_list) => match bd_spec(b.reward_addr@) {
                                Err(e) => Err(e),
                                Ok(reward_addr) => match tags_from_spec(b.tags@) {
                                    Err(e) => Err(e),
                                    Ok(tags) => Ok(
                                        BlockView {
                                            ver: 1,
                                            indep_hash,
                                            nonce,
                                            previous_block,
                                            timestamp: b.timestamp,
                                            last_retarget: b.last_retarget,
                                            diff: b.diff@,
                                            height: b.height,
                                            hash,
                                            tx_root: bd_or_none(b.tx_root),
                                            txs,
                                            wallet_list,
                                            reward_addr,
                                            tags,
                                            reward_pool: b.reward_pool@,
                                            weave_size: b.weave_size@,
                                            block_size: b.block_size@,
                                            cumulative_diff: opt_text_view(b.cumulative_diff),
                                            hash_list: Seq::empty(),
                                            hash_list_merkle: bd_or_none(b.hash_list_merkle),
                                            poa: poa_or_none(b.poa),
                                        },
                                    ),
                                },
                            },
                        },
                    },
                },
            },
        },
    }
}

impl Tag {
    pub fn try_from(tag: types::Tag) -> (res: Result<Self, Error>)
        ensures
            tag_from_spec(tag) == (match res {
                Ok(t) => Ok(t@),
                Err(e) => Err(e),
            }),
    {
        let name = match bd(tag.name.as_str()) {
            Ok(v) => v,
            Err(e) => return Err(e),
        };
        let value = match bd(tag.value.as_str()) {
            Ok(v) => v,
            Err(e) => return Err(e),
        };
        Ok(Self { name, value })
    }
}

/// Converts the tags one after the other; the first that fails gives the error.
fn tags_try_from(tags: Vec<types::Tag>) -> (res: Result<Vec<Tag>, Error>)
    ensures
        tags_from_spec(tags@) == (match res {
            Ok(v) => Ok(v@.map_values(|t: Tag| t@)),
            Err(e) => Err(e),
        }),
{
    let ghost all = tags@;
    let mut out: Vec<Tag> = Vec::new();
    assert(all.take(0) =~= Seq::<types::Tag>::empty());
    assert(out@.map_values(|t: Tag| t@) =~= Seq::<TagView>::empty());
    for t in it: tags.into_iter()
        invariant
            it.seq() == all,
            tags_from_spec(all.take(it.index() as int)) == Ok::<Seq<TagView>, Error>(
                out@.map_values(|t: Tag| t@),
            ),
    {
        let ghost i = it.index() as int;
        assert(all.take(i + 1).drop_last() =~= all.take(i));
        assert(all.take(i + 1).last() == t);
        match Tag::try_from(t) {
            Ok(v) => {
                let ghost before = out@;
                out.push(v);
                assert(out@.map_values(|t: Tag| t@) =~= before.map_values(|t: Tag| t@).push(v@));
            },
            Err(e) => {
                proof {
                    lemma_tags_error_persists(all, i + 1);
                }
                return Err(e);
            },
        }
    }
    assert(all.take(all.len() as int) =~= all);
    Ok(out)
}

/// Once a prefix of the tags fails to convert, so do all of them, with the same error.
proof fn lemma_tags_error_persists(s: Seq<types::Tag>, k: int)
    requires
        0 <= k <= s.len(),
        tags_from_spec(s.take(k)) is Err,
    ensures
        tags_from_spec(s) == tags_from_spec(s.take(k)),
    decreases s.len() - k,
{
    if k < s.len() {
        assert(s.take(k + 1).drop_last() =~= s.take(k));
        lemma_tags_error_persists(s, k + 1);
    } else {
        assert(s.take(k) =~= s);
    }
}


impl ProofOfAccess {
    pub fn try_from(poa: types::Poa) -> (res: Result<Self, Error>)
        ensures
            poa_from_spec(poa) == (match res {
                Ok(p) => Ok(p@),
                Err(e) => Err(e),
            }),
    {
        let tx_path = match bd(poa.tx_path.as_str()) {
            Ok(v) => v,
            Err(e) => return Err(e),
        };
        let data_path = match bd(poa.data_path.as_str()) {
            Ok(v) => v,
            Err(e) => return Err(e),
        };
        let chunk = match bd(poa.chunk.as_str()) {
            Ok(v) => v,
            Err(e) => return Err(e),
        };
        Ok(Self { option: poa.option, tx_path, data_path, chunk })
    }
}

impl Transaction {
    pub fn try_from(tx: types::Transaction) -> (res: Result<Self, Error>)
        ensures
            transaction_from_spec(tx) == (match res {
                Ok(t) => Ok(t@),
                Err(e) => Err(e),
            }),
            res matches Ok(out) ==> {
                &&& out.target@ == bd_spec(tx.target@)->Ok_0
                &&& out.id@ == bd_spec(tx.id@)->Ok_0
                &&& out.tags@.len() == tx.tags@.len()
                &&& (forall|i: int| 0 <= i < tx.tags@.len() ==> out.tags@[i]@ == #[trigger] tag_from_spec(
                    tx.tags@[i],
                )->Ok_0)
            },
    {
        proof {
            lemma_transaction_conversion(tx);
        }
        let id = match bd(tx.id.as_str()) {
            Ok(v) => v,
            Err(e) => return Err(e),
        };
        let last_tx = match bd(tx.last_tx.as_str()) {
            Ok(v) => v,
            Err(e) => return Err(e),
        };
        let owner = match bd(tx.owner.as_str()) {
            Ok(v) => v,
            Err(e) => return Err(e),
        };
        let tags = match tags_try_from(tx.tags) {
            Ok(v) => v,
            Err(e) => return Err(e),
        };
        let target = match bd(tx.target.as_str()) {
            Ok(v) => v,
            Err(e) => return Err(e),
        };
        let data = match bd(tx.data.as_str()) {
            Ok(v) => v,
            Err(e) => return Err(e),
        };
        let data_root = match bd(tx.data_root.as_str()) {
            Ok(v) => v,
            Err(e) => return Err(e),
        };
        let signature = match bd(tx.signature.as_str()) {
            Ok(v) => v,
            Err(e) => return Err(e),
        };
        let res = Self {
            format: tx.format,
            id,
            last_tx,
            owner,
            tags,
            target,
            quantity: tx.quantity,
            data,
            data_size: tx.data_size,
            data_root,
            signature,
            reward: tx.reward,
        };
        proof {
            assert forall|i: int| 0 <= i < tx.tags@.len() implies res.tags@[i]@ == #[trigger] tag_from_spec(
                tx.tags@[i],
            )->Ok_0 by {
                assert(res.tags@[i]@ == res@.tags[i]);
            }
        }
        Ok(res)
    }
}

/// Converts the transactions one after the other; the first that fails gives the error.
fn transactions_try_from(txs: Vec<types::Transaction>) -> (res: Result<Vec<Transaction>, Error>)
    ensures
        transactions_from_spec(txs@) == (match res {
            Ok(v) => Ok(v@.map_values(|t: Transaction| t@)),
            Err(e) => Err(e),
        }),
{
    let ghost all = txs@;
    let mut out: Vec<Transaction> = Vec::new();
    assert(all.take(0) =~= Seq::<types::Transaction>::empty());
    assert(out@.map_values(|t: Transaction| t@) =~= Seq::<TransactionView>::empty());
    for t in it: txs.into_iter()
        invariant
            it.seq() == all,
            transactions_from_spec(all.take(it.index() as int)) == Ok::<Seq<TransactionView>, Error>(
                out@.map_values(|t: Transaction| t@),
            ),
    {
        let ghost i = it.index() as int;
        assert(all.take(i + 1).drop_last() =~= all.take(i));
        assert(all.take(i + 1).last() == t);
        match Transaction::try_from(t) {
            Ok(v) => {
                let ghost before = out@;
                out.push(v);
                assert(out@.map_values(|t: Transaction| t@) =~= before.map_values(
                    |t: Transaction| t@,
                ).push(v@));
            },
            Err(e) => {
                proof {
                    lemma_transactions_error_persists(all, i + 1);
                }
                return Err(e);
            },
        }
    }
    assert(all.take(all.len() as int) =~= all);
    Ok(out)
}

/// Once a prefix of the transactions fails to convert, so do all of them, with the same
/// error.
proof fn lemma_transactions_error_persists(s: Seq<types::Transaction>, k: int)
    requires
        0 <= k <= s.len(),
        transactions_from_spec(s.take(k)) is Err,
    ensures
        transactions_from_spec(s) == transactions_from_spec(s.take(k)),
    decreases s.len() - k,
{
    if k < s.len() {
        assert(s.take(k + 1).drop_last() =~= s.take(k));
        lemma_transactions_error_persists(s, k + 1);
    } else {
        assert(s.take(k) =~= s);
    }
}

fn poa_ok(o: Option<types::Poa>) -> (res: Option<ProofOfAccess>)
    ensures
        opt_poa_view(res) == poa_or_none(o),
{
    match o {
        Some(p) => match ProofOfAccess::try_from(p) {
            Ok(v) => Some(v),
            Err(_) => None,
        },
        None => None,
    }
}

impl Block {
    pub fn try_from(block: types::FirehoseBlock) -> (res: Result<Self, Error>)
        ensures
            block_from_spec(block) == (match res {
                Ok(b) => Ok(b@),
                Err(e) => Err(e),
            }),
            res matches Ok(out) ==> {
                &&& out.reward_addr@ == bd_spec(block.reward_addr@)->Ok_0
                &&& out.wallet_list@ == bd_spec(block.wallet_list@)->Ok_0
                &&& out.indep_hash@ == bd_spec(block.indep_hash@)->Ok_0
                &&& out.hash@ == bd_spec(block.hash@)->Ok_0
                &&& out.txs@.len() == block.txs@.len()
                &&& (forall|i: int| 0 <= i < block.txs@.len() ==> out.txs@[i]@ == #[trigger] transaction_from_spec(
                    block.txs@[i],
                )->Ok_0)
                &&& out.tags@.len() == block.tags@.len()
                &&& (forall|i: int| 0 <= i < block.tags@.len() ==> out.tags@[i]@ == #[trigger] tag_from_spec(
                    block.tags@[i],
                )->Ok_0)
            },
    {
        proof {
            lemma_block_conversion(block);
        }
        let ghost b = block;
        let indep_hash = match bd(block.indep_hash.as_str()) {
            Ok(v) => v,
            Err(e) => return Err(e),
        };
        let nonce = match bd(block.nonce.as_str()) {
            Ok(v) => v,
            Err(e) => return Err(e),
        };
        let previous_block = match bd(block.previous_block.as_str()) {
            Ok(v) => v,
            Err(e) => return Err(e),
        };
        let hash = match bd(block.hash.as_str()) {
            Ok(v) => v,
            Err(e) => return Err(e),
        };
        let tx_root = bd_ok(block.tx_root);
        let txs = match transactions_try_from(block.txs) {
            Ok(v) => v,
            Err(e) => return Err(e),
        };
        let wallet_list = match bd(block.wallet_list.as_str()) {
            Ok(v) => v,
            Err(e) => return Err(e),
        };
        let reward_addr = match bd(block.reward_addr.as_str()) {
            Ok(v) => v,
            Err(e) => return Err(e),
        };
        let tags = match tags_try_from(block.tags) {
            Ok(v) => v,
            Err(e) => return Err(e),
        };
        let hash_list_merkle = bd_ok(block.hash_list_merkle);
        let poa = poa_ok(block.poa);
        let res = Self {
            ver: 1,
            indep_hash,
            nonce,
            previous_block,
            timestamp: block.timestamp,
            last_retarget: block.last_retarget,
            diff: block.diff,
            height: block.height,
            hash,
            tx_root,
            txs,
            wallet_list,
            reward_addr,
            tags,
            reward_pool: block.reward_pool,
            weave_size: block.weave_size,
            block_size: block.block_size,
            cumulative_diff: block.cumulative_diff,
            // the hash list is not a field of an arweave block
            hash_list: Vec::new(),
            hash_list_merkle,
            poa,
        };
        assert(res@.hash_list =~= Seq::<Seq<u8>>::empty());
        proof {
            assert forall|i: int| 0 <= i < block.tags@.len() implies res.tags@[i]@ == #[trigger] tag_from_spec(
                block.tags@[i],
            )->Ok_0 by {
                assert(res.tags@[i]@ == res@.tags[i]);
            }
            assert forall|i: int| 0 <= i < block.txs@.len() implies res.txs@[i]@
                == #[trigger] transaction_from_spec(block.txs@[i])->Ok_0 by {
                assert(res.txs@[i]@ == res@.txs[i]);
            }
        }
        Ok(res)
    }
}

/// A converted tag holds the decodings of the name and the value; it converts exactly when
/// both decode, and otherwise fails with the error of the first that does not.
pub proof fn lemma_tag_conversion(tag: types::Tag)
    ensures
        tag_from_spec(tag) is Ok <==> (bd_spec(tag.name@) is Ok && bd_spec(tag.value@) is Ok),
        tag_from_spec(tag) is Ok ==> tag_from_spec(tag)->Ok_0.name == bd_spec(tag.name@)->Ok_0
            && tag_from_spec(tag)->Ok_0.value == bd_spec(tag.value@)->Ok_0,
        bd_spec(tag.name@) is Err ==> tag_from_spec(tag)->Err_0 == bd_spec(tag.name@)->Err_0,
        bd_spec(tag.name@) is Ok && bd_spec(tag.value@) is Err ==> tag_from_spec(tag)->Err_0
            == bd_spec(tag.value@)->Err_0,
{
}

/// Converting a list of tags keeps their number and their order: the `i`-th converted tag
/// is the conversion of the `i`-th tag. It succeeds exactly when every tag converts, and
/// otherwise fails with the error of the first tag that does not.
pub proof fn lemma_tags_conversion(tags: Seq<types::Tag>)
    ensures
        tags_from_spec(tags) is Ok <==> forall|i: int| 0 <= i < tags.len() ==> #[trigger] tag_from_spec(tags[i]) is Ok,
        tags_from_spec(tags) is Ok ==> tags_from_spec(tags)->Ok_0.len() == tags.len(),
        tags_from_spec(tags) is Ok ==> forall|i: int|
            0 <= i < tags.len() ==> tags_from_spec(tags)->Ok_0[i] == #[trigger] tag_from_spec(tags[i])->Ok_0,
        tags_from_spec(tags) is Err ==> exists|i: int|
            0 <= i < tags.len() && (forall|j: int| 0 <= j < i ==> #[trigger] tag_from_spec(tags[j]) is Ok)
                && tag_from_spec(tags[i]) is Err && tags_from_spec(tags)->Err_0 == #[trigger] tag_from_spec(tags[i])->Err_0,
    decreases tags.len(),
{
    if tags.len() > 0 {
        let prev = tags.drop_last();
        lemma_tags_conversion(prev);
        let n = tags.len() - 1;
        assert(tags.last() == tags[n]);
        assert forall|i: int| 0 <= i < n implies prev[i] == tags[i] by {}
        if tags_from_spec(prev) is Err {
            let i = choose|i: int|
                0 <= i < prev.len() && (forall|j: int| 0 <= j < i ==> #[trigger] tag_from_spec(prev[j]) is Ok)
                    && tag_from_spec(prev[i]) is Err && tags_from_spec(prev)->Err_0 == #[trigger] tag_from_spec(prev[i])->Err_0;
            assert(prev[i] == tags[i]);
            assert forall|j: int| 0 <= j < i implies #[trigger] tag_from_spec(tags[j]) is Ok by {
                assert(prev[j] == tags[j]);
                assert(tag_from_spec(prev[j]) is Ok);
            }
        } else {
            assert forall|j: int| 0 <= j < n implies #[trigger] tag_from_spec(tags[j]) is Ok by {
                assert(prev[j] == tags[j]);
                assert(tag_from_spec(prev[j]) is Ok);
            }
            if tags_from_spec(tags) is Ok {
                assert forall|i: int| 0 <= i < tags.len() implies tags_from_spec(tags)->Ok_0[i]
                    == #[trigger] tag_from_spec(tags[i])->Ok_0 by {
                    if i < n {
                        assert(prev[i] == tags[i]);
                    }
                }
            }
        }
        if forall|i: int| 0 <= i < tags.len() ==> #[trigger] tag_from_spec(tags[i]) is Ok {
            assert forall|j: int| 0 <= j < prev.len() implies #[trigger] tag_from_spec(prev[j]) is Ok by {
                assert(prev[j] == tags[j]);
            }
        }
    }
}

/// Converting the transactions of a block keeps their number and their order: the `i`-th
/// converted transaction is the conversion of the `i`-th one. It succeeds exactly when every
/// transaction converts, and otherwise fails with the error of the first that does not.
pub proof fn lemma_transactions_conversion(txs: Seq<types::Transaction>)
    ensures
        transactions_from_spec(txs) is Ok <==> forall|i: int|
            0 <= i < txs.len() ==> #[trigger] transaction_from_spec(txs[i]) is Ok,
        transactions_from_spec(txs) is Ok ==> transactions_from_spec(txs)->Ok_0.len() == txs.len(),
        transactions_from_spec(txs) is Ok ==> forall|i: int|
            0 <= i < txs.len() ==> transactions_from_spec(txs)->Ok_0[i] == #[trigger] transaction_from_spec(txs[i])->Ok_0,
        transactions_from_spec(txs) is Err ==> exists|i: int|
            0 <= i < txs.len() && (forall|j: int| 0 <= j < i ==> #[trigger] transaction_from_spec(txs[j]) is Ok)
                && transaction_from_spec(txs[i]) is Err && transactions_from_spec(txs)->Err_0
                == #[trigger] transaction_from_spec(txs[i])->Err_0,
    decreases txs.len(),
{
    if txs.len() > 0 {
        let prev = txs.drop_last();
        lemma_transactions_conversion(prev);
        let n = txs.len() - 1;
        assert(txs.last() == txs[n]);
        if transactions_from_spec(prev) is Err {
            let i = choose|i: int|
                0 <= i < prev.len() && (forall|j: int| 0 <= j < i ==> #[trigger] transaction_from_spec(prev[j]) is Ok)
                    && transaction_from_spec(prev[i]) is Err && transactions_from_spec(prev)->Err_0
                    == #[trigger] transaction_from_spec(prev[i])->Err_0;
            assert(prev[i] == txs[i]);
            assert forall|j: int| 0 <= j < i implies #[trigger] transaction_from_spec(txs[j]) is Ok by {
                assert(prev[j] == txs[j]);
                assert(transaction_from_spec(prev[j]) is Ok);
            }
        } else {
            assert forall|j: int| 0 <= j < n implies #[trigger] transaction_from_spec(txs[j]) is Ok by {
                assert(prev[j] == txs[j]);
                assert(transaction_from_spec(prev[j]) is Ok);
            }
            if transactions_from_spec(txs) is Ok {
                assert forall|i: int| 0 <= i < txs.len() implies transactions_from_spec(txs)->Ok_0[i]
                    == #[trigger] transaction_from_spec(txs[i])->Ok_0 by {
                    if i < n {
                        assert(prev[i] == txs[i]);
                    }
                }
            }
        }
        if forall|i: int| 0 <= i < txs.len() ==> #[trigger] transaction_from_spec(txs[i]) is Ok {
            assert forall|j: int| 0 <= j < prev.len() implies #[trigger] transaction_from_spec(prev[j]) is Ok by {
                assert(prev[j] == txs[j]);
            }
        }
    }
}

/// A converted proof of access keeps the option and holds the decodings of the three
/// paths and chunk; it converts exactly when all three decode.
pub proof fn lemma_poa_conversion(poa: types::Poa)
    ensures
        poa_from_spec(poa) is Ok <==> (bd_spec(poa.tx_path@) is Ok && bd_spec(poa.data_path@) is Ok
            && bd_spec(poa.chunk@) is Ok),
        poa_from_spec(poa) is Ok ==> {
            let p = poa_from_spec(poa)->Ok_0;
            &&& p.option == poa.option@
            &&& p.tx_path == bd_spec(poa.tx_path@)->Ok_0
            &&& p.data_path == bd_spec(poa.data_path@)->Ok_0
            &&& p.chunk == bd_spec(poa.chunk@)->Ok_0
        },
{
}

/// A converted transaction keeps `format`, `quantity`, `data_size` and `reward`, holds
/// the decodings of its binary fields, and its tags are the conversions of the
/// transaction's tags, in their order. It converts exactly when every binary field
/// decodes and every tag converts.
pub proof fn lemma_transaction_conversion(tx: types::Transaction)
    ensures
        transaction_from_spec(tx) is Ok <==> {
            &&& bd_spec(tx.id@) is Ok
            &&& bd_spec(tx.last_tx@) is Ok
            &&& bd_spec(tx.owner@) is Ok
            &&& (forall|i: int| 0 <= i < tx.tags@.len() ==> #[trigger] tag_from_spec(tx.tags@[i]) is Ok)
            &&& bd_spec(tx.target@) is Ok
            &&& bd_spec(tx.data@) is Ok
            &&& bd_spec(tx.data_root@) is Ok
            &&& bd_spec(tx.signature@) is Ok
        },
        transaction_from_spec(tx) is Ok ==> {
            let t = transaction_from_spec(tx)->Ok_0;
            &&& t.format == tx.format
            &&& t.id == bd_spec(tx.id@)->Ok_0
            &&& t.last_tx == bd_spec(tx.last_tx@)->Ok_0
            &&& t.owner == bd_spec(tx.owner@)->Ok_0
            &&& t.tags.len() == tx.tags@.len()
            &&& (forall|i: int| 0 <= i < tx.tags@.len() ==> t.tags[i] == #[trigger] tag_from_spec(tx.tags@[i])->Ok_0)
            &&& t.target == bd_spec(tx.target@)->Ok_0
            &&& t.quantity == tx.quantity@
            &&& t.data == bd_spec(tx.data@)->Ok_0
            &&& t.data_size == tx.data_size@
            &&& t.data_root == bd_spec(tx.data_root@)->Ok_0
            &&& t.signature == bd_spec(tx.signature@)->Ok_0
            &&& t.reward == tx.reward@
        },
{
    lemma_tags_conversion(tx.tags@);
}

/// A converted block has `ver` 1, keeps the plain fields, holds the decodings of its
/// binary fields (`reward_addr` too: only the text `unclaimed` stands for no bytes), its
/// transactions and tags are the conversions of the block's, in their order, `hash_list` is
/// empty, and `tx_root`, `hash_list_merkle` and `poa` are converted where they can be and
/// left out where they cannot. It converts exactly when every required binary field
/// decodes and every transaction and tag converts.
pub proof fn lemma_block_conversion(b: types::FirehoseBlock)
    ensures
        block_from_spec(b) is Ok <==> {
            &&& bd_spec(b.indep_hash@) is Ok
            &&& bd_spec(b.nonce@) is Ok
            &&& bd_spec(b.previous_block@) is Ok
            &&& bd_spec(b.hash@) is Ok
            &&& (forall|i: int| 0 <= i < b.txs@.len() ==> #[trigger] transaction_from_spec(b.txs@[i]) is Ok)
            &&& bd_spec(b.wallet_list@) is Ok
            &&& bd_spec(b.reward_addr@) is Ok
            &&& (forall|i: int| 0 <= i < b.tags@.len() ==> #[trigger] tag_from_spec(b.tags@[i]) is Ok)
        },
        block_from_spec(b) is Ok ==> {
            let v = block_from_spec(b)->Ok_0;
            &&& v.ver == 1
            &&& v.indep_hash == bd_spec(b.indep_hash@)->Ok_0
            &&& v.nonce == bd_spec(b.nonce@)->Ok_0
            &&& v.previous_block == bd_spec(b.previous_block@)->Ok_0
            &&& v.timestamp == b.timestamp
            &&& v.last_retarget == b.last_retarget
            &&& v.diff == b.diff@
            &&& v.height == b.height
            &&& v.hash == bd_spec(b.hash@)->Ok_0
            &&& (v.tx_root is Some <==> (b.tx_root is Some && bd_spec(b.tx_root->0@) is Ok))
            &&& (v.tx_root is Some ==> v.tx_root->0 == bd_spec(b.tx_root->0@)->Ok_0)
            &&& v.txs.len() == b.txs@.len()
            &&& (forall|i: int| 0 <= i < b.txs@.len() ==> v.txs[i] == #[trigger] transaction_from_spec(b.txs@[i])->Ok_0)
            &&& v.wallet_list == bd_spec(b.wallet_list@)->Ok_0
            &&& v.reward_addr == bd_spec(b.reward_addr@)->Ok_0
            &&& v.tags.len() == b.tags@.len()
            &&& (forall|i: int| 0 <= i < b.tags@.len() ==> v.tags[i] == #[trigger] tag_from_spec(b.tags@[i])->Ok_0)
            &&& v.reward_pool == b.reward_pool@
            &&& v.weave_size == b.weave_size@
            &&& v.block_size == b.block_size@
            &&& (v.cumulative_diff is Some <==> b.cumulative_diff is Some)
            &&& (v.cumulative_diff is Some ==> v.cumulative_diff->0 == b.cumulative_diff->0@)
            &&& v.hash_list.len() == 0
            &&& (v.hash_list_merkle is Some <==> (b.hash_list_merkle is Some && bd_spec(
                b.hash_list_merkle->0@,
            ) is Ok))
            &&& (v.hash_list_merkle is Some ==> v.hash_list_merkle->0 == bd_spec(b.hash_list_merkle->0@)->Ok_0)
            &&& (v.poa is Some <==> (b.poa is Some && poa_from_spec(b.poa->0) is Ok))
            &&& (v.poa is Some ==> v.poa->0 == poa_from_spec(b.poa->0)->Ok_0)
        },
{
    lemma_tags_conversion(b.tags@);
    lemma_transactions_conversion(b.txs@);
}

} // verus!
