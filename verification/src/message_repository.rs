use vstd::prelude::*;
use vstd::string::*;
use vstd::utf8::*;
use crate::text::{append_str, concat2, contains_string, str_eq, views};
use std::io::Read;

verus! {

broadcast use vstd::string::group_string_axioms;

/// Upper bound on the size of any decompressed message or render payload.
pub const MAX_DECOMPRESSED_MESSAGE_BYTES: usize = 134217728;

/// Compression level used for message content and render caches.
pub const COMPRESSION_LEVEL: i32 = 3;

/// What reading at most `limit` decompressed bytes from the zstd stream `bytes` yields:
/// the bytes read, or `None` when the decoder reports an error.
pub uninterp spec fn zstd_read_limited(bytes: Seq<u8>, limit: nat) -> Option<Seq<u8>>;

/// The zstd frame that `zstd::bulk::compress` produces for `data` at `level`.
pub uninterp spec fn zstd_frame(data: Seq<u8>, level: i32) -> Seq<u8>;

/// `zstd::bulk::compress`. It compresses into a buffer of `compress_bound(data.len())`
/// bytes, which always suffices, so it succeeds; the result is the named frame, and by the
/// crate's round-trip guarantee decoding that frame gives back `data` (cut at the read limit).
#[verifier::external_body]
fn zstd_compress(data: &[u8], level: i32) -> (r: Result<Vec<u8>, String>)
    ensures
        r is Ok,
        r->Ok_0@ == zstd_frame(data@, level),
        forall|limit: nat| #[trigger]
            zstd_read_limited(r->Ok_0@, limit) == Some(
                data@.take(if limit < data@.len() { limit as int } else { data@.len() as int }),
            ),
{
    zstd::bulk::compress(data, level).map_err(|e| e.to_string())
}

/// `zstd::stream::read::Decoder` over `bytes`, read through `Read::take(limit)` with
/// `read_to_end`. The bytes read are the named value; at most `limit` of them come back.
#[verifier::external_body]
fn zstd_decode_limited(bytes: &[u8], limit: u64) -> (r: Result<Vec<u8>, String>)
    ensures
        r is Ok <==> zstd_read_limited(bytes@, limit as nat) is Some,
        r is Ok ==> r->Ok_0@ == zstd_read_limited(bytes@, limit as nat)->0,
        r is Ok ==> r->Ok_0@.len() <= limit,
{
    let decoder = zstd::stream::read::Decoder::new(bytes).map_err(|e| e.to_string())?;
    let mut out = Vec::new();
    decoder.take(limit).read_to_end(&mut out).map_err(|e| e.to_string())?;
    Ok(out)
}

/// `String::from_utf8`: succeeds exactly on valid UTF-8, decoding it.
#[verifier::external_body]
pub(crate) fn string_from_utf8(bytes: Vec<u8>) -> (r: Result<String, String>)
    ensures
        r is Ok <==> valid_utf8(bytes@),
        r is Ok ==> r->Ok_0@ == decode_utf8(bytes@),
{
    String::from_utf8(bytes).map_err(|e| e.to_string())
}

/// Result of a bounded decompression, as a value.
pub open spec fn bounded_decompress_spec(bytes: Seq<u8>) -> Option<Seq<u8>> {
    match zstd_read_limited(bytes, (MAX_DECOMPRESSED_MESSAGE_BYTES + 1) as nat) {
        Some(out) => if out.len() > MAX_DECOMPRESSED_MESSAGE_BYTES {
            None
        } else {
            Some(out)
        },
        None => None,
    }
}

/// Decompresses a zstd stream, refusing outputs above the safety limit. A decoder error
/// is reported as `zstd {kind} decompression failed: ` and the decoder's message; an output
/// above the limit as `zstd {kind} exceeds the 128 MiB decompressed safety limit`.
pub fn decompress_zstd_bounded(bytes: &[u8], data_kind: &str) -> (r: Result<Vec<u8>, String>)
    ensures
        r is Ok <==> bounded_decompress_spec(bytes@) is Some,
        r is Ok ==> r->Ok_0@ == bounded_decompress_spec(bytes@)->0,
        zstd_read_limited(bytes@, (MAX_DECOMPRESSED_MESSAGE_BYTES + 1) as nat) is None ==> ("zstd "@
            + data_kind@ + " decompression failed: "@).is_prefix_of(r->Err_0@),
        zstd_read_limited(bytes@, (MAX_DECOMPRESSED_MESSAGE_BYTES + 1) as nat) is Some
            ==> bounded_decompress_spec(bytes@) is None ==> r->Err_0@ == "zstd "@ + data_kind@
            + " exceeds the 128 MiB decompressed safety limit"@,
{
    let limit: u64 = (MAX_DECOMPRESSED_MESSAGE_BYTES + 1) as u64;
    match zstd_decode_limited(bytes, limit) {
        Err(e) => {
            let mut msg = String::from_str("zstd ");
            append_str(&mut msg, data_kind);
            append_str(&mut msg, " decompression failed: ");
            append_str(&mut msg, e.as_str());
            Err(msg)
        },
        Ok(out) => {
            if out.len() > MAX_DECOMPRESSED_MESSAGE_BYTES {
                let mut msg = String::from_str("zstd ");
                append_str(&mut msg, data_kind);
                append_str(&mut msg, " exceeds the 128 MiB decompressed safety limit");
                Err(msg)
            } else {
                Ok(out)
            }
        },
    }
}

/// The version tag that every current render-cache key starts with.
pub open spec fn render_cache_version() -> Seq<char> {
    "render-v5:"@
}

/// The render-cache key of a content hash.
pub open spec fn cache_key_spec(content_hash: Seq<char>) -> Seq<char> {
    render_cache_version() + content_hash
}

pub struct MessageRenderCompiler;

impl MessageRenderCompiler {
    /// Versioned render-cache key for a content hash.
    pub fn cache_key(content_hash: &str) -> (key: String)
        ensures
            key@ == cache_key_spec(content_hash@),
    {
        concat2("render-v5:", content_hash)
    }

    /// Whether a stored cache hash was produced for `content_hash` by the current version.
    pub fn cache_matches(cache_hash: &str, content_hash: &str) -> (r: bool)
        ensures
            r == (cache_hash@ == cache_key_spec(content_hash@)),
    {
        let key = Self::cache_key(content_hash);
        str_eq(cache_hash, key.as_str())
    }

    /// Compresses the JSON serialization of render blocks into the cached binary form.
    /// Decompressing the result gives the JSON back (within the safety limit).
    pub fn serialize_json(json_bytes: &[u8]) -> (r: Result<Vec<u8>, String>)
        ensures
            r is Ok,
            r->Ok_0@ == zstd_frame(json_bytes@, COMPRESSION_LEVEL),
            bounded_decompress_spec(r->Ok_0@) == (if json_bytes@.len()
                <= MAX_DECOMPRESSED_MESSAGE_BYTES {
                Some(json_bytes@)
            } else {
                None::<Seq<u8>>
            }),
    {
        match zstd_compress(json_bytes, COMPRESSION_LEVEL) {
            Ok(v) => {
                proof {
                    let data = json_bytes@;
                    let lim = (MAX_DECOMPRESSED_MESSAGE_BYTES + 1) as nat;
                    assert(zstd_read_limited(zstd_frame(data, COMPRESSION_LEVEL), lim) == Some(
                        data.take(if lim < data.len() { lim as int } else { data.len() as int }),
                    ));
                    if data.len() <= MAX_DECOMPRESSED_MESSAGE_BYTES {
                        assert(data.take(data.len() as int) =~= data);
                    }
                }
                Ok(v)
            },
            Err(e) => {
                let mut msg = String::from_str("zstd compress failed: ");
                append_str(&mut msg, e.as_str());
                Err(msg)
            },
        }
    }

    /// The JSON serialization held in a cached binary, decompressed within the safety limit.
    pub fn deserialize_json(bytes: &[u8]) -> (r: Result<Vec<u8>, String>)
        ensures
            r is Ok <==> bounded_decompress_spec(bytes@) is Some,
            r is Ok ==> r->Ok_0@ == bounded_decompress_spec(bytes@)->0,
    {
        decompress_zstd_bounded(bytes, "render cache")
    }
}

pub struct ContentCompressor;

impl ContentCompressor {
    /// Compresses the UTF-8 bytes of `text` with zstd.
    pub fn compress(text: &str) -> (r: Result<Vec<u8>, String>)
        ensures
            r is Ok,
            r->Ok_0@ == zstd_frame(encode_utf8(text@), COMPRESSION_LEVEL),
            bounded_decompress_spec(r->Ok_0@) == (if encode_utf8(text@).len()
                <= MAX_DECOMPRESSED_MESSAGE_BYTES {
                Some(encode_utf8(text@))
            } else {
                None::<Seq<u8>>
            }),
    {
        let bytes = text.as_bytes();
        let r = zstd_compress(bytes, COMPRESSION_LEVEL);
        match r {
            Ok(v) => {
                proof {
                    let data = encode_utf8(text@);
                    let lim = (MAX_DECOMPRESSED_MESSAGE_BYTES + 1) as nat;
                    assert(zstd_read_limited(zstd_frame(data, COMPRESSION_LEVEL), lim) == Some(
                        data.take(if lim < data.len() { lim as int } else { data.len() as int }),
                    ));
                    if data.len() <= MAX_DECOMPRESSED_MESSAGE_BYTES {
                        assert(data.take(data.len() as int) =~= data);
                    }
                }
                Ok(v)
            },
            Err(e) => {
                let mut msg = String::from_str("zstd compress content failed: ");
                append_str(&mut msg, e.as_str());
                Err(msg)
            },
        }
    }

    /// Decompresses message content and decodes it as UTF-8.
    pub fn decompress(bytes: &[u8]) -> (r: Result<String, String>)
        ensures
            r is Ok <==> (bounded_decompress_spec(bytes@) is Some && valid_utf8(
                bounded_decompress_spec(bytes@)->0,
            )),
            r is Ok ==> r->Ok_0@ == decode_utf8(bounded_decompress_spec(bytes@)->0),
    {
        let out = decompress_zstd_bounded(bytes, "message content")?;
        match string_from_utf8(out) {
            Ok(s) => Ok(s),
            Err(e) => {
                let mut msg = String::from_str("content decompression not valid utf-8: ");
                append_str(&mut msg, e.as_str());
                Err(msg)
            },
        }
    }
}


/// How many render compilers a rebuild runs: the available parallelism (4 when unknown),
/// kept between 2 and 12.
pub fn rebuild_concurrency(available: Option<usize>) -> (r: usize)
    ensures
        r == (match available {
            Some(n) => if n < 2 {
                2
            } else if n > 12 {
                12
            } else {
                n
            },
            None => 4,
        }),
{
    match available {
        Some(n) => if n < 2 {
            2
        } else if n > 12 {
            12
        } else {
            n
        },
        None => 4,
    }
}

/// How many compiled renders a compiler collects before handing them to the writer.
pub const RENDER_BATCH_SIZE: usize = 50;

/// Whether a compiler's batch is full and goes to the writer.
pub fn render_batch_full(len: usize) -> (r: bool)
    ensures
        r == (len >= RENDER_BATCH_SIZE),
{
    len >= RENDER_BATCH_SIZE
}

/// What `String::from_utf8_lossy` makes of bytes that are not valid UTF-8.
pub uninterp spec fn utf8_lossy(bytes: Seq<u8>) -> Seq<char>;

/// `String::from_utf8_lossy`: valid UTF-8 is decoded as it is; other bytes get replacement
/// characters (named by `utf8_lossy`).
#[verifier::external_body]
fn string_from_utf8_lossy(bytes: &[u8]) -> (r: String)
    ensures
        valid_utf8(bytes@) ==> r@ == decode_utf8(bytes@),
        !valid_utf8(bytes@) ==> r@ == utf8_lossy(bytes@),
{
    String::from_utf8_lossy(bytes).into_owned()
}

/// The text a stored message content is re-rendered from: the decompressed content, or,
/// when the bytes are not compressed content, the bytes read as (lossy) UTF-8.
pub fn cached_content_text(bytes: &[u8]) -> (r: String)
    ensures
        (bounded_decompress_spec(bytes@) is Some && valid_utf8(bounded_decompress_spec(bytes@)->0))
            ==> r@ == decode_utf8(bounded_decompress_spec(bytes@)->0),
        !(bounded_decompress_spec(bytes@) is Some && valid_utf8(
            bounded_decompress_spec(bytes@)->0,
        )) ==> r@ == (if valid_utf8(bytes@) {
            decode_utf8(bytes@)
        } else {
            utf8_lossy(bytes@)
        }),
{
    match ContentCompressor::decompress(bytes) {
        Ok(s) => s,
        Err(_) => string_from_utf8_lossy(bytes),
    }
}

/// Progress of a render-cache rebuild: rows written out of the rows to write.
pub struct RebuildProgress {
    pub current: usize,
    pub total: usize,
}

/// Least time between two progress reports of a rebuild, in milliseconds.
pub const PROGRESS_EMIT_INTERVAL_MS: u64 = 32;

impl RebuildProgress {
    /// The report sent once a rebuild has finished: every row written.
    pub fn complete(total: usize) -> (p: RebuildProgress)
        ensures
            p.current == total,
            p.total == total,
    {
        RebuildProgress { current: total, total }
    }

    /// Whether the writer reports progress after committing a batch: once the emit interval
    /// has passed since the last report, or when every row is written.
    pub fn should_emit(elapsed_ms: u64, processed: usize, total: usize) -> (r: bool)
        ensures
            r == (elapsed_ms >= PROGRESS_EMIT_INTERVAL_MS || processed == total),
    {
        elapsed_ms >= PROGRESS_EMIT_INTERVAL_MS || processed == total
    }
}

/// The hash an attachment is stored under: its declared hash when that is non-empty,
/// otherwise the digest of its source.
pub open spec fn attachment_hash_spec(declared: Option<Seq<char>>, src_digest: Seq<char>) -> Seq<
    char,
> {
    match declared {
        Some(h) => if h.len() > 0 {
            h
        } else {
            src_digest
        },
        None => src_digest,
    }
}

/// Positions of the attachments whose hash is not tombstoned, in order.
pub open spec fn kept_indices(hashes: Seq<Seq<char>>, tombstoned: Seq<Seq<char>>) -> Seq<int>
    decreases hashes.len(),
{
    if hashes.len() == 0 {
        Seq::empty()
    } else {
        let p = kept_indices(hashes.drop_last(), tombstoned);
        if tombstoned.contains(hashes.last()) {
            p
        } else {
            p.push(hashes.len() - 1)
        }
    }
}

/// The hashes that enter a message's content fingerprint: those of its attachments that
/// are not tombstoned, in order.
pub open spec fn fingerprint_hashes(hashes: Seq<Seq<char>>, tombstoned: Seq<Seq<char>>) -> Seq<
    Seq<char>,
> {
    kept_indices(hashes, tombstoned).map_values(|i: int| hashes[i])
}

/// Whether `o` is one of the reserved (tombstoned) attachment orders.
pub open spec fn is_reserved(reserved: Seq<i32>, o: int) -> bool {
    orders_as_ints(reserved).contains(o)
}

/// Orders as integers.
pub open spec fn orders_as_ints(reserved: Seq<i32>) -> Seq<int> {
    reserved.map_values(|x: i32| x as int)
}

/// Every order strictly between `prev` and `cur` is reserved, and `prev < cur`: `cur` is the
/// first free order after `prev`, given that `cur` itself is free.
pub open spec fn only_reserved_between(reserved: Seq<i32>, prev: int, cur: int) -> bool {
    &&& prev < cur
    &&& forall|o: int| prev < o < cur ==> #[trigger] is_reserved(reserved, o)
}

/// The order that precedes the `k`-th planned attachment (-1 before the first).
pub open spec fn previous_order(plan: Seq<(usize, i32)>, k: int) -> int {
    if k == 0 {
        -1
    } else {
        plan[k - 1].1 as int
    }
}

proof fn lemma_kept_indices_bounds(hashes: Seq<Seq<char>>, tombstoned: Seq<Seq<char>>)
    ensures
        forall|k: int|
            0 <= k < kept_indices(hashes, tombstoned).len() ==> 0 <= #[trigger] kept_indices(
                hashes,
                tombstoned,
            )[k] < hashes.len(),
        kept_indices(hashes, tombstoned).len() <= hashes.len(),
    decreases hashes.len(),
{
    if hashes.len() > 0 {
        lemma_kept_indices_bounds(hashes.drop_last(), tombstoned);
    }
}

fn contains_order(reserved: &Vec<i32>, o: i32) -> (r: bool)
    ensures
        r == is_reserved(reserved@, o as int),
{
    let mut j: usize = 0;
    while j < reserved.len()
        invariant
            j <= reserved.len(),
            forall|m: int| 0 <= m < j ==> reserved@[m] != o,
        decreases reserved.len() - j,
    {
        if reserved[j] == o {
            assert(orders_as_ints(reserved@)[j as int] == o as int);
            return true;
        }
        j = j + 1;
    }
    assert forall|m: int| 0 <= m < reserved@.len() implies #[trigger] orders_as_ints(reserved@)[m] != o as int by {}
    false
}

/// Database operations on messages, with the decisions they take made here.
pub struct MessageRepository;

impl MessageRepository {
    /// The hash an attachment is stored under: its declared hash when non-empty, otherwise
    /// the digest of its source.
    pub fn attachment_hash(declared: &Option<String>, src_digest: &str) -> (h: String)
        ensures
            h@ == attachment_hash_spec(
                match declared {
                    Some(d) => Some(d@),
                    None => None,
                },
                src_digest@,
            ),
    {
        match declared {
            Some(d) => {
                if d.unicode_len() > 0 {
                    d.clone()
                } else {
                    src_digest.to_string()
                }
            },
            None => src_digest.to_string(),
        }
    }

    /// The attachment hashes that enter the content fingerprint: tombstoned ones are left
    /// out, the rest keep their order.
    pub fn fingerprint_attachment_hashes(hashes: &Vec<String>, tombstoned: &Vec<String>) -> (r:
        Vec<String>)
        ensures
            views(r@) == fingerprint_hashes(views(hashes@), views(tombstoned@)),
    {
        let ghost hv = views(hashes@);
        let ghost tv = views(tombstoned@);
        let mut out: Vec<String> = Vec::new();
        let mut i: usize = 0;
        while i < hashes.len()
            invariant
                i <= hashes.len(),
                hv == views(hashes@),
                tv == views(tombstoned@),
                views(out@) == kept_indices(hv.take(i as int), tv).map_values(|j: int| hv[j]),
            decreases hashes.len() - i,
        {
            proof {
                assert(hv.take(i + 1).drop_last() =~= hv.take(i as int));
                assert(hv.take(i + 1).last() == hv[i as int]);
                lemma_kept_indices_bounds(hv.take(i as int), tv);
            }
            let h = &hashes[i];
            if !contains_string(tombstoned.as_slice(), h.as_str()) {
                let c = h.clone();
                proof {
                    crate::text::lemma_views_push(out@, c);
                }
                out.push(c);
                proof {
                    assert(views(out@) =~= kept_indices(hv.take(i + 1), tv).map_values(
                        |j: int| hv[j],
                    ));
                }
            } else {
                assert(views(out@) =~= kept_indices(hv.take(i + 1), tv).map_values(
                    |j: int| hv[j],
                ));
            }
            i = i + 1;
        }
        assert(hv.take(hashes.len() as int) =~= hv);
        out
    }

    /// Plans where each attachment of a message goes: tombstoned hashes are skipped, and
    /// each remaining attachment, in order, takes the next order that no tombstoned row
    /// holds. Returns each kept attachment's position in the list with its order.
    pub fn plan_attachment_orders(
        hashes: &Vec<String>,
        tombstoned: &Vec<String>,
        reserved: &Vec<i32>,
    ) -> (r: Vec<(usize, i32)>)
        requires
            hashes.len() + reserved.len() <= i32::MAX,
        ensures
            r@.len() == kept_indices(views(hashes@), views(tombstoned@)).len(),
            forall|k: int|
                0 <= k < r@.len() ==> r@[k].0 as int == kept_indices(
                    views(hashes@),
                    views(tombstoned@),
                )[k],
            forall|k: int| 0 <= k < r@.len() ==> !is_reserved(reserved@, #[trigger] r@[k].1 as int),
            forall|k: int|
                0 <= k < r@.len() ==> only_reserved_between(
                    reserved@,
                    previous_order(r@, k),
                    #[trigger] r@[k].1 as int,
                ),
    {
        let ghost hv = views(hashes@);
        let ghost tv = views(tombstoned@);
        let ghost rs = orders_as_ints(reserved@).to_set();
        proof {
            orders_as_ints(reserved@).lemma_cardinality_of_set();
        }
        let mut out: Vec<(usize, i32)> = Vec::new();
        let mut order: i32 = 0;
        let ghost mut skipped: Set<int> = Set::empty();
        let mut i: usize = 0;
        while i < hashes.len()
            invariant
                i <= hashes.len(),
                hashes.len() + reserved.len() <= i32::MAX,
                hv == views(hashes@),
                tv == views(tombstoned@),
                rs == orders_as_ints(reserved@).to_set(),
                rs.finite(),
                rs.len() <= reserved.len(),
                out@.len() == kept_indices(hv.take(i as int), tv).len(),
                out@.len() <= i,
                forall|k: int|
                    0 <= k < out@.len() ==> out@[k].0 as int == kept_indices(
                        hv.take(i as int),
                        tv,
                    )[k],
                forall|k: int|
                    0 <= k < out@.len() ==> !is_reserved(reserved@, #[trigger] out@[k].1 as int),
                forall|k: int|
                    0 <= k < out@.len() ==> only_reserved_between(
                        reserved@,
                        previous_order(out@, k),
                        #[trigger] out@[k].1 as int,
                    ),
                only_reserved_between(reserved@, previous_order(out@, out@.len() as int), order as int),
                0 <= order,
                skipped.finite(),
                skipped.subset_of(rs),
                skipped.len() + out@.len() == order,
                forall|o: int| skipped.contains(o) ==> o < order,
            decreases hashes.len() - i,
        {
            proof {
                assert(hv.take(i + 1).drop_last() =~= hv.take(i as int));
                assert(hv.take(i + 1).last() == hv[i as int]);
            }
            let h = &hashes[i];
            if !contains_string(tombstoned.as_slice(), h.as_str()) {
                let ghost start = order;
                while contains_order(reserved, order)
                    invariant
                        start <= order,
                        hashes.len() + reserved.len() <= i32::MAX,
                        rs == orders_as_ints(reserved@).to_set(),
                        rs.finite(),
                        rs.len() <= reserved.len(),
                        out@.len() <= i,
                        i < hashes.len(),
                        only_reserved_between(reserved@, previous_order(out@, out@.len() as int), order as int),
                        0 <= order,
                        skipped.finite(),
                        skipped.subset_of(rs),
                        skipped.len() + out@.len() == order,
                        forall|o: int| skipped.contains(o) ==> o < order,
                    decreases i32::MAX - order,
                {
                    proof {
                        assert(rs.contains(order as int));
                        assert(!skipped.contains(order as int));
                        skipped = skipped.insert(order as int);
                        vstd::set_lib::lemma_len_subset(skipped, rs);
                    }
                    order = order + 1;
                    assert(only_reserved_between(reserved@, previous_order(out@, out@.len() as int), order as int));
                }
                proof {
                    vstd::set_lib::lemma_len_subset(skipped, rs);
                }
                let ghost before = out@;
                out.push((i, order));
                proof {
                    assert(previous_order(out@, before.len() as int) == previous_order(before, before.len() as int));
                    assert forall|k: int| 0 <= k < before.len() implies previous_order(out@, k) == previous_order(before, k) by {}
                }
                order = order + 1;
            }
            i = i + 1;
        }
        assert(hv.take(hashes.len() as int) =~= hv);
        out
    }
}

/// Compressing a text and decompressing the result gives the text back, for every text
/// within the decompression safety limit.
pub proof fn lemma_content_round_trip(text: Seq<char>, frame: Seq<u8>)
    requires
        encode_utf8(text).len() <= MAX_DECOMPRESSED_MESSAGE_BYTES,
        bounded_decompress_spec(frame) == Some(encode_utf8(text)),
    ensures
        bounded_decompress_spec(frame) is Some,
        valid_utf8(bounded_decompress_spec(frame)->0),
        decode_utf8(bounded_decompress_spec(frame)->0) == text,
{
    broadcast use vstd::utf8::encode_utf8_valid_utf8, vstd::utf8::encode_utf8_decode_utf8;

    assert(valid_utf8(encode_utf8(text)));
    assert(decode_utf8(encode_utf8(text)) == text);
}

} // verus!
