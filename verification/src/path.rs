//! Where a file is kept on disk, and where the backend has it.
use vstd::prelude::*;

verus! {

/// `part` joined to the path `base`, as Unix paths are joined: an absolute `part` replaces
/// `base`, and otherwise one slash stands between the two, unless `base` is empty or ends in one.
pub open spec fn joined(base: Seq<char>, part: Seq<char>) -> Seq<char> {
    if part.len() > 0 && part[0] == '/' {
        part
    } else if base.len() == 0 || base.last() == '/' {
        base + part
    } else {
        base.push('/') + part
    }
}

/// `hash` can be cut after its second and its fourth byte.
pub open spec fn shardable(hash: Seq<char>) -> bool {
    &&& vstd::utf8::is_char_boundary(vstd::utf8::encode_utf8(hash), 2)
    &&& vstd::utf8::is_char_boundary(vstd::utf8::encode_utf8(hash), 4)
}

/// The text that the bytes `from..to` of `s` are.
pub open spec fn byte_range(s: Seq<char>, from: int, to: int) -> Seq<char> {
    vstd::utf8::decode_utf8(vstd::utf8::encode_utf8(s).subrange(from, to))
}

/// The file that the cache keeps for `hash` of `silo`: two levels of directories, named by the
/// first four bytes of the hash, keep each directory small.
pub open spec fn cached_path(cache: Seq<char>, silo: Seq<char>, hash: Seq<char>) -> Seq<char> {
    let shard = joined(joined(joined(cache, silo), byte_range(hash, 0, 2)), byte_range(hash, 2, 4));
    joined(shard, hash)
}

/// Where the backend serves `hash` of `silo`.
pub open spec fn backend_url(backend: Seq<char>, silo: Seq<char>, hash: Seq<char>) -> Seq<char> {
    joined(joined(joined(backend, silo), hash), "human.jpg"@)
}

/// Joins `part` to the path `base`, as [`joined`] says.
pub fn join(base: &str, part: &str) -> (r: String)
    ensures
        r@ == joined(base@, part@),
{
    let part_len = part.unicode_len();
    if part_len > 0 && part.get_char(0) == '/' {
        return part.to_owned();
    }
    let base_len = base.unicode_len();
    let mut r = base.to_owned();
    if base_len > 0 && base.get_char(base_len - 1) != '/' {
        proof {
            reveal_strlit("/");
            assert("/"@ =~= seq!['/']);
        }
        r.append("/");
        assert(r@ =~= base@.push('/'));
    }
    r.append(part);
    r
}

/// Whether `hash` can name a cached file.
pub fn is_shardable(hash: &str) -> (r: bool)
    ensures
        r == shardable(hash@),
{
    hash.is_char_boundary(2) && hash.is_char_boundary(4)
}

/// The path of the cached file, as [`cached_path`] says.
pub fn cache_path(cache: &str, silo: &str, hash: &str) -> (r: String)
    requires
        shardable(hash@),
    ensures
        r@ == cached_path(cache@, silo@, hash@),
{
    let (head, _) = hash.split_at(4);
    proof {
        lemma_cut(hash@);
    }
    let (first, second) = head.split_at(2);
    proof {
        vstd::utf8::encode_utf8_decode_utf8(first@);
        vstd::utf8::encode_utf8_decode_utf8(second@);
        let bytes = vstd::utf8::encode_utf8(hash@);
        assert(bytes.subrange(0, 4).subrange(0, 2) =~= bytes.subrange(0, 2));
        assert(bytes.subrange(0, 4).subrange(2, 4) =~= bytes.subrange(2, 4));
    }
    let dir = join(cache, silo);
    let dir = join(dir.as_str(), first);
    let dir = join(dir.as_str(), second);
    join(dir.as_str(), hash)
}

/// The URL of the backend's copy, as [`backend_url`] says.
pub fn url_of(backend: &str, silo: &str, hash: &str) -> (r: String)
    ensures
        r@ == backend_url(backend@, silo@, hash@),
{
    let url = join(backend, silo);
    let url = join(url.as_str(), hash);
    join(url.as_str(), "human.jpg")
}

/// What remains after a cut at the fourth byte can still be cut at the second.
proof fn lemma_cut(hash: Seq<char>)
    requires
        shardable(hash),
    ensures
        ({
            let bytes = vstd::utf8::encode_utf8(hash);
            &&& bytes.len() >= 4
            &&& vstd::utf8::valid_utf8(bytes)
            &&& vstd::utf8::valid_utf8(bytes.subrange(0, 4))
            &&& vstd::utf8::is_char_boundary(bytes.subrange(0, 4), 2)
        }),
{
    let bytes = vstd::utf8::encode_utf8(hash);
    vstd::utf8::encode_utf8_valid_utf8(hash);
    lemma_boundary_in_range(bytes, 4);
    vstd::utf8::valid_utf8_split(bytes, 4);
    let head = bytes.subrange(0, 4);
    assert(head[2] == bytes[2]);
    vstd::utf8::is_char_boundary_iff_not_is_continuation_byte(bytes, 2);
    vstd::utf8::is_char_boundary_iff_not_is_continuation_byte(head, 2);
}

proof fn lemma_boundary_in_range(bytes: Seq<u8>, index: int)
    requires
        vstd::utf8::valid_utf8(bytes),
        vstd::utf8::is_char_boundary(bytes, index),
    ensures
        0 <= index <= bytes.len(),
{
}

/// A hash of four or more ASCII characters, such as hexadecimal digits, can be cut.
pub proof fn law_ascii_is_shardable(hash: Seq<char>)
    requires
        vstd::utf8::is_ascii_chars(hash),
        hash.len() >= 4,
    ensures
        shardable(hash),
{
    let bytes = vstd::utf8::encode_utf8(hash);
    vstd::utf8::encode_utf8_valid_utf8(hash);
    vstd::utf8::is_ascii_chars_encode_utf8(hash);
    vstd::utf8::is_char_boundary_start_end_of_seq(bytes);
    assert(hash[2] as u8 == bytes[2]);
    vstd::utf8::is_char_boundary_iff_not_is_continuation_byte(bytes, 2);
    if hash.len() > 4 {
        assert(hash[4] as u8 == bytes[4]);
        vstd::utf8::is_char_boundary_iff_not_is_continuation_byte(bytes, 4);
    }
}

/// `s` holds no slash.
pub open spec fn one_component(s: Seq<char>) -> bool {
    !s.contains('/')
}

/// What a path component is joined to, to lie directly in `base`.
pub open spec fn directory(base: Seq<char>) -> Seq<char> {
    if base.len() == 0 || base.last() == '/' {
        base
    } else {
        base.push('/')
    }
}

/// Both directories that a hash names have a name of two bytes without a slash, if the hash has
/// none.
proof fn lemma_shards(hash: Seq<char>)
    requires
        shardable(hash),
        one_component(hash),
    ensures
        byte_range(hash, 0, 2).len() > 0,
        byte_range(hash, 2, 4).len() > 0,
        one_component(byte_range(hash, 0, 2)),
        one_component(byte_range(hash, 2, 4)),
        hash.len() > 0,
{
    let bytes = vstd::utf8::encode_utf8(hash);
    let head = bytes.subrange(0, 4);
    let first = byte_range(hash, 0, 2);
    let second = byte_range(hash, 2, 4);
    lemma_cut(hash);
    vstd::utf8::encode_utf8_decode_utf8(hash);
    vstd::utf8::decode_utf8_split(bytes, 4);
    vstd::utf8::valid_utf8_split(head, 2);
    vstd::utf8::decode_utf8_split(head, 2);
    assert(head.subrange(0, 2) =~= bytes.subrange(0, 2));
    assert(head.subrange(2, 4) =~= bytes.subrange(2, 4));
    let rest = vstd::utf8::decode_utf8(bytes.subrange(4, bytes.len() as int));
    assert(hash =~= first + second + rest);
    vstd::utf8::decode_utf8_encode_utf8(bytes.subrange(0, 2));
    vstd::utf8::decode_utf8_encode_utf8(bytes.subrange(2, 4));
    assert(first.len() > 0);
    assert(second.len() > 0);
    assert forall|i: int| 0 <= i < first.len() implies first[i] != '/' by {
        assert(hash[i] == first[i]);
    }
    assert forall|i: int| 0 <= i < second.len() implies second[i] != '/' by {
        assert(hash[first.len() + i] == second[i]);
    }
}

/// The cached file of an image, spelled out: the silo's directory, then the two that the hash
/// names, then the hash.
proof fn lemma_cached_path(cache: Seq<char>, silo: Seq<char>, hash: Seq<char>)
    requires
        shardable(hash),
        one_component(hash),
        one_component(silo),
    ensures
        cached_path(cache, silo, hash) == (directory(directory(cache) + silo) + byte_range(
            hash,
            0,
            2,
        )).push('/') + byte_range(hash, 2, 4).push('/') + hash,
{
    lemma_shards(hash);
    let first = byte_range(hash, 0, 2);
    let second = byte_range(hash, 2, 4);
    assert(first.contains(first[0]));
    assert(second.contains(second[0]));
    assert(hash.contains(hash[0]));
    assert(first.contains(first.last()));
    assert(second.contains(second.last()));
    if silo.len() > 0 {
        assert(silo.contains(silo[0]));
    }
    let a = joined(cache, silo);
    assert(a =~= directory(cache) + silo);
    let b = joined(a, first);
    assert(b =~= directory(a) + first);
    let c = joined(b, second);
    assert(b.last() == first.last());
    assert(c =~= b.push('/') + second);
    assert(c.last() == second.last());
    assert(joined(c, hash) =~= c.push('/') + hash);
    assert(joined(c, hash) =~= b.push('/') + second.push('/') + hash);
}

/// `s` names an entry of a directory: it is a component, and not the directory itself or the one
/// above it.
pub open spec fn entry_name(s: Seq<char>) -> bool {
    &&& s.len() > 0
    &&& one_component(s)
    &&& s != "."@
    &&& s != ".."@
}

/// An image is kept below the cache directory, in a file that is named by its hash: three levels
/// of directories lead there, each the entry of the one before. Left out is a hash that names the
/// directory above by its first or its second two bytes.
pub proof fn law_kept_below_cache(cache: Seq<char>, silo: Seq<char>, hash: Seq<char>)
    requires
        shardable(hash),
        one_component(hash),
        entry_name(silo),
        byte_range(hash, 0, 2) != ".."@,
        byte_range(hash, 2, 4) != ".."@,
    ensures
        entry_name(byte_range(hash, 0, 2)),
        entry_name(byte_range(hash, 2, 4)),
        entry_name(hash),
        cached_path(cache, silo, hash) == directory(cache) + silo.push('/') + byte_range(
            hash,
            0,
            2,
        ).push('/') + byte_range(hash, 2, 4).push('/') + hash,
{
    lemma_cached_path(cache, silo, hash);
    lemma_shards(hash);
    let first = byte_range(hash, 0, 2);
    let second = byte_range(hash, 2, 4);
    let a = directory(cache) + silo;
    assert(silo.contains(silo.last()));
    assert(a.last() == silo.last());
    assert(directory(a) == a.push('/'));
    assert(cached_path(cache, silo, hash) =~= directory(cache) + silo.push('/') + first.push('/')
        + second.push('/') + hash);
    let bytes = vstd::utf8::encode_utf8(hash);
    lemma_cut(hash);
    vstd::utf8::valid_utf8_split(bytes.subrange(0, 4), 2);
    assert(bytes.subrange(0, 4).subrange(0, 2) =~= bytes.subrange(0, 2));
    assert(bytes.subrange(0, 4).subrange(2, 4) =~= bytes.subrange(2, 4));
    vstd::utf8::decode_utf8_encode_utf8(bytes.subrange(0, 2));
    vstd::utf8::decode_utf8_encode_utf8(bytes.subrange(2, 4));
    reveal_strlit(".");
    reveal_strlit("..");
    vstd::utf8::is_ascii_chars_encode_utf8("."@);
    vstd::utf8::is_ascii_chars_encode_utf8(".."@);
}

/// Two texts that end in a slash and a component are the same only where both parts are.
proof fn lemma_last_component(a: Seq<char>, x: Seq<char>, b: Seq<char>, y: Seq<char>)
    requires
        a.push('/') + x == b.push('/') + y,
        one_component(x),
        one_component(y),
    ensures
        a == b,
        x == y,
{
    let s = a.push('/') + x;
    let t = b.push('/') + y;
    assert(s == t);
    assert(s.len() == a.len() + 1 + x.len());
    assert(t.len() == b.len() + 1 + y.len());
    assert(s[a.len() as int] == a.push('/')[a.len() as int]);
    assert(t[b.len() as int] == b.push('/')[b.len() as int]);
    if a.len() < b.len() {
        assert(x[b.len() - a.len() - 1] == s[b.len() as int]);
        assert(x.contains('/'));
    }
    if b.len() < a.len() {
        assert(y[a.len() - b.len() - 1] == t[a.len() as int]);
        assert(y.contains('/'));
    }
    assert(a =~= b) by {
        assert forall|i: int| 0 <= i < a.len() implies a[i] == b[i] by {
            assert(s[i] == a[i]);
            assert(t[i] == b[i]);
        }
    }
    assert(x =~= y) by {
        assert forall|i: int| 0 <= i < x.len() implies x[i] == y[i] by {
            assert(s[a.len() + 1 + i] == x[i]);
            assert(t[b.len() + 1 + i] == y[i]);
        }
    }
}

/// Two images never have the same path: the path tells the silo and the hash.
pub proof fn law_files_apart(
    cache: Seq<char>,
    silo1: Seq<char>,
    hash1: Seq<char>,
    silo2: Seq<char>,
    hash2: Seq<char>,
)
    requires
        shardable(hash1),
        one_component(hash1),
        one_component(silo1),
        shardable(hash2),
        one_component(hash2),
        one_component(silo2),
        cached_path(cache, silo1, hash1) == cached_path(cache, silo2, hash2),
    ensures
        silo1 == silo2,
        hash1 == hash2,
{
    lemma_cached_path(cache, silo1, hash1);
    lemma_cached_path(cache, silo2, hash2);
    let d = directory(cache);
    let x1 = directory(d + silo1) + byte_range(hash1, 0, 2);
    let x2 = directory(d + silo2) + byte_range(hash2, 0, 2);
    let y1 = x1.push('/') + byte_range(hash1, 2, 4);
    let y2 = x2.push('/') + byte_range(hash2, 2, 4);
    assert(cached_path(cache, silo1, hash1) =~= y1.push('/') + hash1);
    assert(cached_path(cache, silo2, hash2) =~= y2.push('/') + hash2);
    lemma_last_component(y1, hash1, y2, hash2);
    lemma_shards(hash1);
    lemma_last_component(x1, byte_range(hash1, 2, 4), x2, byte_range(hash2, 2, 4));
    let z1 = directory(d + silo1);
    let z2 = directory(d + silo2);
    let shard = byte_range(hash1, 0, 2);
    assert(z1 =~= z2) by {
        assert(z1.len() + shard.len() == x1.len());
        assert(z2.len() + shard.len() == x2.len());
        assert(x1.take(z1.len() as int) =~= z1);
        assert(x2.take(z2.len() as int) =~= z2);
    }
    assert(silo1.len() > 0 ==> silo1.contains(silo1.last()));
    assert(silo2.len() > 0 ==> silo2.contains(silo2.last()));
    assert(silo1.len() == silo2.len());
    assert(silo1 =~= silo2) by {
        assert forall|i: int| 0 <= i < silo1.len() implies silo1[i] == silo2[i] by {
            assert(z1[d.len() + i] == silo1[i]);
            assert(z2[d.len() + i] == silo2[i]);
        }
    }
}

/// The backend serves an image under its address, the silo and the whole hash.
pub proof fn law_url_names_image(backend: Seq<char>, silo: Seq<char>, hash: Seq<char>)
    requires
        silo.len() > 0,
        one_component(silo),
        hash.len() > 0,
        one_component(hash),
    ensures
        backend.len() > 0 && backend.last() != '/' ==> backend_url(backend, silo, hash)
            == backend.push('/') + silo.push('/') + hash + "/human.jpg"@,
        backend.len() == 0 || backend.last() == '/' ==> backend_url(backend, silo, hash) == backend
            + silo.push('/') + hash + "/human.jpg"@,
{
    reveal_strlit("human.jpg");
    reveal_strlit("/human.jpg");
    assert("/human.jpg"@ =~= seq!['/'] + "human.jpg"@);
    assert(silo.contains(silo[0]) && silo.contains(silo.last()));
    assert(hash.contains(hash[0]) && hash.contains(hash.last()));
    let a = joined(backend, silo);
    assert(a =~= directory(backend) + silo);
    assert(a.last() == silo.last());
    let b = joined(a, hash);
    assert(b =~= a.push('/') + hash);
    assert(b.last() == hash.last());
    assert(backend_url(backend, silo, hash) =~= b.push('/') + "human.jpg"@);
    assert(backend_url(backend, silo, hash) =~= directory(backend) + silo.push('/') + hash
        + "/human.jpg"@);
}

/// Two images never have the same URL at the backend.
pub proof fn law_urls_apart(
    backend: Seq<char>,
    silo1: Seq<char>,
    hash1: Seq<char>,
    silo2: Seq<char>,
    hash2: Seq<char>,
)
    requires
        silo1.len() > 0,
        one_component(silo1),
        hash1.len() > 0,
        one_component(hash1),
        silo2.len() > 0,
        one_component(silo2),
        hash2.len() > 0,
        one_component(hash2),
        backend_url(backend, silo1, hash1) == backend_url(backend, silo2, hash2),
    ensures
        silo1 == silo2,
        hash1 == hash2,
{
    law_url_names_image(backend, silo1, hash1);
    law_url_names_image(backend, silo2, hash2);
    reveal_strlit("human.jpg");
    reveal_strlit("/human.jpg");
    assert("/human.jpg"@ =~= seq!['/'] + "human.jpg"@);
    let d = directory(backend);
    let x1 = d + silo1;
    let x2 = d + silo2;
    let y1 = x1.push('/') + hash1;
    let y2 = x2.push('/') + hash2;
    assert(one_component("human.jpg"@));
    assert(backend_url(backend, silo1, hash1) =~= y1.push('/') + "human.jpg"@);
    assert(backend_url(backend, silo2, hash2) =~= y2.push('/') + "human.jpg"@);
    lemma_last_component(y1, "human.jpg"@, y2, "human.jpg"@);
    lemma_last_component(x1, hash1, x2, hash2);
    assert(x1.skip(d.len() as int) =~= silo1);
    assert(x2.skip(d.len() as int) =~= silo2);
}

/// The directories of a hash are named by its first two bytes and by the two after them.
pub proof fn law_shards_are_bytes(hash: Seq<char>)
    requires
        shardable(hash),
    ensures
        vstd::utf8::encode_utf8(byte_range(hash, 0, 2)) == vstd::utf8::encode_utf8(hash).take(2),
        vstd::utf8::encode_utf8(byte_range(hash, 2, 4)) == vstd::utf8::encode_utf8(hash).subrange(
            2,
            4,
        ),
        byte_range(hash, 0, 2) + byte_range(hash, 2, 4) == hash.take(
            (byte_range(hash, 0, 2) + byte_range(hash, 2, 4)).len() as int,
        ),
{
    let bytes = vstd::utf8::encode_utf8(hash);
    let head = bytes.subrange(0, 4);
    lemma_cut(hash);
    vstd::utf8::encode_utf8_decode_utf8(hash);
    vstd::utf8::decode_utf8_split(bytes, 4);
    vstd::utf8::valid_utf8_split(head, 2);
    vstd::utf8::decode_utf8_split(head, 2);
    assert(head.subrange(0, 2) =~= bytes.subrange(0, 2));
    assert(head.subrange(2, 4) =~= bytes.subrange(2, 4));
    assert(bytes.subrange(0, 2) =~= bytes.take(2));
    vstd::utf8::decode_utf8_encode_utf8(bytes.subrange(0, 2));
    vstd::utf8::decode_utf8_encode_utf8(bytes.subrange(2, 4));
    let front = byte_range(hash, 0, 2) + byte_range(hash, 2, 4);
    let rest = vstd::utf8::decode_utf8(bytes.subrange(4, bytes.len() as int));
    assert(hash =~= front + rest);
    assert(hash.take(front.len() as int) =~= front);
}

/// An ASCII hash can be cut exactly where it has four characters.
pub proof fn law_short_is_not_shardable(hash: Seq<char>)
    requires
        vstd::utf8::is_ascii_chars(hash),
    ensures
        shardable(hash) <==> hash.len() >= 4,
{
    if hash.len() >= 4 {
        law_ascii_is_shardable(hash);
    }
    if shardable(hash) {
        vstd::utf8::is_ascii_chars_encode_utf8(hash);
        lemma_cut(hash);
    }
}

/// It does not matter in which order three paths are joined.
pub proof fn law_join_associates(a: Seq<char>, b: Seq<char>, c: Seq<char>)
    requires
        b.len() > 0,
    ensures
        joined(joined(a, b), c) == joined(a, joined(b, c)),
        c.len() > 0 && c[0] == '/' ==> joined(a, c) == c,
{
    assert(joined(joined(a, b), c) =~= joined(a, joined(b, c)));
}

} // verus!
