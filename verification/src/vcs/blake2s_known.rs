//! The digest of a message of two blocks, step by step.

use vstd::prelude::*;

use super::blake2s::{
    blake2s_s, bytes_of, chain_s, compress_s, initial_s, mix_s, padded_block, round_s, rounds_s,
    rotr_s, sigma_s, working_s,
};

verus! {

/// The words from one to seventeen: a full block of different words, and one word more.
pub open spec fn first_words() -> Seq<u32> {
    Seq::new(17, |i: int| (i + 1) as u32)
}

spec fn first_block() -> Seq<u32> {
    Seq::new(16, |i: int| (i + 1) as u32)
}

spec fn second_block() -> Seq<u32> {
    Seq::new(16, |i: int| if i == 0 { 17u32 } else { 0u32 })
}

/// A turned word, with the number of places to the left.
proof fn lemma_turned(x: u32, n: u32, m: u32, r: u32)
    requires
        0 < n < 32,
        n + m == 32,
        ((x >> n) | (x << m)) == r,
    ensures
        rotr_s(x, n) == r,
{
}

/// A state with four words replaced.
spec fn placed(v: Seq<u32>, at: (int, int, int, int), w: (u32, u32, u32, u32, u32, u32)) -> Seq<
    u32,
> {
    v.update(at.0, w.0).update(at.1, w.5).update(at.2, w.3).update(at.3, w.2)
}

/// A mixing step, from its parts: the sums, the differences bit by bit, and the turned words of
/// its two halves.
proof fn lemma_mixed(
    v: Seq<u32>,
    at: (int, int, int, int),
    x: u32,
    y: u32,
    p: (u32, u32, u32, u32, u32, u32),
    q: (u32, u32, u32, u32, u32, u32),
)
    requires
        p.0 == v[at.0].wrapping_add(v[at.1]).wrapping_add(x),
        p.1 == v[at.3] ^ p.0,
        p.2 == (p.1 >> 16u32) | (p.1 << 16u32),
        p.3 == v[at.2].wrapping_add(p.2),
        p.4 == v[at.1] ^ p.3,
        p.5 == (p.4 >> 12u32) | (p.4 << 20u32),
        q.0 == p.0.wrapping_add(p.5).wrapping_add(y),
        q.1 == p.2 ^ q.0,
        q.2 == (q.1 >> 8u32) | (q.1 << 24u32),
        q.3 == p.3.wrapping_add(q.2),
        q.4 == p.5 ^ q.3,
        q.5 == (q.4 >> 7u32) | (q.4 << 25u32),
    ensures
        mix_s(v, at.0, at.1, at.2, at.3, x, y) == placed(v, at, q),
{
    reveal(mix_s);
    lemma_turned(p.1, 16, 16, p.2);
    lemma_turned(p.4, 12, 20, p.5);
    lemma_turned(q.1, 8, 24, q.2);
    lemma_turned(q.4, 7, 25, q.5);
}

proof fn lemma_first_block_round_0()
    ensures
        round_s(seq![
            0x6b08e647u32, 0xbb67ae85, 0x3c6ef372, 0xa54ff53a, 0x510e527f, 0x9b05688c, 0x1f83d9ab, 0x5be0cd19,
            0x6a09e667, 0xbb67ae85, 0x3c6ef372, 0xa54ff53a, 0x510e523f, 0x9b05688c, 0x1f83d9ab, 0x5be0cd19,
        ], first_block(), 0) == seq![
            0x9eeb9385u32, 0xceaf27e0, 0xa8c1849a, 0x31f8b7d4, 0x25a65810, 0x02a17025, 0x63b8ccd6, 0xdde3f1d5,
            0x4f5fc86c, 0x74287311, 0xc67e542b, 0x546817ec, 0xf693cce9, 0x73d5116f, 0x74f3b9aa, 0x7dfed9d0,
        ],
{
    assert((0x510e523fu32 ^ 0xbc1738c7) == 0xed196af8
        && ((0xed196af8u32 >> 16) | (0xed196af8u32 << 16)) == 0x6af8ed19
        && (0x510e527fu32 ^ 0xd502d380) == 0x840c81ff
        && ((0x840c81ffu32 >> 12) | (0x840c81ffu32 << 20)) == 0x1ff840c8
        && (0x6af8ed19u32 ^ 0xdc0f7991) == 0xb6f79488
        && ((0xb6f79488u32 >> 8) | (0xb6f79488u32 << 24)) == 0x88b6f794
        && (0x1ff840c8u32 ^ 0x5db9cb14) == 0x42418bdc
        && ((0x42418bdcu32 >> 7) | (0x42418bdcu32 << 25)) == 0xb8848317
        && (0x9b05688cu32 ^ 0x566d1714) == 0xcd687f98
        && ((0xcd687f98u32 >> 16) | (0xcd687f98u32 << 16)) == 0x7f98cd68
        && (0x9b05688cu32 ^ 0x3b007bed) == 0xa0051361
        && ((0xa0051361u32 >> 12) | (0xa0051361u32 << 20)) == 0x361a0051
        && (0x7f98cd68u32 ^ 0x8c871769) == 0xf31fda01
        && ((0xf31fda01u32 >> 8) | (0xf31fda01u32 << 24)) == 0x01f31fda
        && (0x361a0051u32 ^ 0x3cf39bc7) == 0x0ae99b96
        && ((0x0ae99b96u32 >> 7) | (0x0ae99b96u32 << 25)) == 0x2c15d337
        && (0x1f83d9abu32 ^ 0x5bf2cd22) == 0x44711489
        && ((0x44711489u32 >> 16) | (0x44711489u32 << 16)) == 0x14894471
        && (0x1f83d9abu32 ^ 0x50f837e3) == 0x4f7bee48
        && ((0x4f7bee48u32 >> 12) | (0x4f7bee48u32 << 20)) == 0xe484f7be
        && (0x14894471u32 ^ 0x4077c4e6) == 0x54fe8097
        && ((0x54fe8097u32 >> 8) | (0x54fe8097u32 << 24)) == 0x9754fe80
        && (0xe484f7beu32 ^ 0xe84d3663) == 0x0cc9c1dd
        && ((0x0cc9c1ddu32 >> 7) | (0x0cc9c1ddu32 << 25)) == 0xba199383
        && (0x5be0cd19u32 ^ 0x0130c25a) == 0x5ad00f43
        && ((0x5ad00f43u32 >> 16) | (0x5ad00f43u32 << 16)) == 0x0f435ad0
        && (0x5be0cd19u32 ^ 0xb493500a) == 0xef739d13
        && ((0xef739d13u32 >> 12) | (0xef739d13u32 << 20)) == 0xd13ef739
        && (0x0f435ad0u32 ^ 0xd26fb99b) == 0xdd2ce34b
        && ((0xdd2ce34bu32 >> 8) | (0xdd2ce34bu32 << 24)) == 0x4bdd2ce3
        && (0xd13ef739u32 ^ 0x00707ced) == 0xd14e8bd4
        && ((0xd14e8bd4u32 >> 7) | (0xd14e8bd4u32 << 25)) == 0xa9a29d17
        && (0x4bdd2ce3u32 ^ 0x08254cd1) == 0x43f86032
        && ((0x43f86032u32 >> 16) | (0x43f86032u32 << 16)) == 0x603243f8
        && (0x2c15d337u32 ^ 0x487f7a5b) == 0x646aa96c
        && ((0x646aa96cu32 >> 12) | (0x646aa96cu32 << 20)) == 0x96c646aa
        && (0x603243f8u32 ^ 0x9eeb9385) == 0xfed9d07d
        && ((0xfed9d07du32 >> 8) | (0xfed9d07du32 << 24)) == 0x7dfed9d0
        && (0x96c646aau32 ^ 0xc67e542b) == 0x50b81281
        && ((0x50b81281u32 >> 7) | (0x50b81281u32 << 25)) == 0x02a17025
        && (0x88b6f794u32 ^ 0x46a0aaf7) == 0xce165d63
        && ((0xce165d63u32 >> 16) | (0xce165d63u32 << 16)) == 0x5d63ce16
        && (0xba199383u32 ^ 0x5dd44b03) == 0xe7cdd880
        && ((0xe7cdd880u32 >> 12) | (0xe7cdd880u32 << 20)) == 0x880e7cdd
        && (0x5d63ce16u32 ^ 0xceaf27e0) == 0x93cce9f6
        && ((0x93cce9f6u32 >> 8) | (0x93cce9f6u32 << 24)) == 0xf693cce9
        && (0x880e7cddu32 ^ 0x546817ec) == 0xdc666b31
        && ((0xdc666b31u32 >> 7) | (0xdc666b31u32 << 25)) == 0x63b8ccd6
        && (0x01f31fdau32 ^ 0xea1a620a) == 0xebe97dd0
        && ((0xebe97dd0u32 >> 16) | (0xebe97dd0u32 << 16)) == 0x7dd0ebe9
        && (0xa9a29d17u32 ^ 0xdb8ab6fd) == 0x72282bea
        && ((0x72282beau32 >> 12) | (0x72282beau32 << 20)) == 0xbea72282
        && (0x7dd0ebe9u32 ^ 0xa8c1849a) == 0xd5116f73
        && ((0xd5116f73u32 >> 8) | (0xd5116f73u32 << 24)) == 0x73d5116f
        && (0xbea72282u32 ^ 0x4f5fc86c) == 0xf1f8eaee
        && ((0xf1f8eaeeu32 >> 7) | (0xf1f8eaeeu32 << 25)) == 0xdde3f1d5
        && (0x9754fe80u32 ^ 0x8af43cc1) == 0x1da0c241
        && ((0x1da0c241u32 >> 16) | (0x1da0c241u32 << 16)) == 0xc2411da0
        && (0xb8848317u32 ^ 0xff34b967) == 0x47b03a70
        && ((0x47b03a70u32 >> 12) | (0x47b03a70u32 << 20)) == 0xa7047b03
        && (0xc2411da0u32 ^ 0x31f8b7d4) == 0xf3b9aa74
        && ((0xf3b9aa74u32 >> 8) | (0xf3b9aa74u32 << 24)) == 0x74f3b9aa
        && (0xa7047b03u32 ^ 0x74287311) == 0xd32c0812
        && ((0xd32c0812u32 >> 7) | (0xd32c0812u32 << 25)) == 0x25a65810) by (bit_vector);
    let m = first_block();
    let s = sigma_s(0);
    let v0 = seq![
        0x6b08e647u32, 0xbb67ae85, 0x3c6ef372, 0xa54ff53a, 0x510e527f, 0x9b05688c, 0x1f83d9ab, 0x5be0cd19,
        0x6a09e667, 0xbb67ae85, 0x3c6ef372, 0xa54ff53a, 0x510e523f, 0x9b05688c, 0x1f83d9ab, 0x5be0cd19,
    ];
    lemma_mixed(
        v0,
        (0, 4, 8, 12),
        1,
        2,
        (0xbc1738c7, 0xed196af8, 0x6af8ed19, 0xd502d380, 0x840c81ff, 0x1ff840c8),
        (0xdc0f7991, 0xb6f79488, 0x88b6f794, 0x5db9cb14, 0x42418bdc, 0xb8848317),
    );
    let v1 = mix_s(v0, 0, 4, 8, 12, m[s[0]], m[s[1]]);
    lemma_mixed(
        v1,
        (1, 5, 9, 13),
        3,
        4,
        (0x566d1714, 0xcd687f98, 0x7f98cd68, 0x3b007bed, 0xa0051361, 0x361a0051),
        (0x8c871769, 0xf31fda01, 0x01f31fda, 0x3cf39bc7, 0x0ae99b96, 0x2c15d337),
    );
    let v2 = mix_s(v1, 1, 5, 9, 13, m[s[2]], m[s[3]]);
    lemma_mixed(
        v2,
        (2, 6, 10, 14),
        5,
        6,
        (0x5bf2cd22, 0x44711489, 0x14894471, 0x50f837e3, 0x4f7bee48, 0xe484f7be),
        (0x4077c4e6, 0x54fe8097, 0x9754fe80, 0xe84d3663, 0x0cc9c1dd, 0xba199383),
    );
    let v3 = mix_s(v2, 2, 6, 10, 14, m[s[4]], m[s[5]]);
    lemma_mixed(
        v3,
        (3, 7, 11, 15),
        7,
        8,
        (0x0130c25a, 0x5ad00f43, 0x0f435ad0, 0xb493500a, 0xef739d13, 0xd13ef739),
        (0xd26fb99b, 0xdd2ce34b, 0x4bdd2ce3, 0x00707ced, 0xd14e8bd4, 0xa9a29d17),
    );
    let v4 = mix_s(v3, 3, 7, 11, 15, m[s[6]], m[s[7]]);
    lemma_mixed(
        v4,
        (0, 5, 10, 15),
        9,
        10,
        (0x08254cd1, 0x43f86032, 0x603243f8, 0x487f7a5b, 0x646aa96c, 0x96c646aa),
        (0x9eeb9385, 0xfed9d07d, 0x7dfed9d0, 0xc67e542b, 0x50b81281, 0x02a17025),
    );
    let v5 = mix_s(v4, 0, 5, 10, 15, m[s[8]], m[s[9]]);
    lemma_mixed(
        v5,
        (1, 6, 11, 12),
        11,
        12,
        (0x46a0aaf7, 0xce165d63, 0x5d63ce16, 0x5dd44b03, 0xe7cdd880, 0x880e7cdd),
        (0xceaf27e0, 0x93cce9f6, 0xf693cce9, 0x546817ec, 0xdc666b31, 0x63b8ccd6),
    );
    let v6 = mix_s(v5, 1, 6, 11, 12, m[s[10]], m[s[11]]);
    lemma_mixed(
        v6,
        (2, 7, 8, 13),
        13,
        14,
        (0xea1a620a, 0xebe97dd0, 0x7dd0ebe9, 0xdb8ab6fd, 0x72282bea, 0xbea72282),
        (0xa8c1849a, 0xd5116f73, 0x73d5116f, 0x4f5fc86c, 0xf1f8eaee, 0xdde3f1d5),
    );
    let v7 = mix_s(v6, 2, 7, 8, 13, m[s[12]], m[s[13]]);
    lemma_mixed(
        v7,
        (3, 4, 9, 14),
        15,
        16,
        (0x8af43cc1, 0x1da0c241, 0xc2411da0, 0xff34b967, 0x47b03a70, 0xa7047b03),
        (0x31f8b7d4, 0xf3b9aa74, 0x74f3b9aa, 0x74287311, 0xd32c0812, 0x25a65810),
    );
    let v8 = mix_s(v7, 3, 4, 9, 14, m[s[14]], m[s[15]]);
    assert(v8 =~= seq![
        0x9eeb9385u32, 0xceaf27e0, 0xa8c1849a, 0x31f8b7d4, 0x25a65810, 0x02a17025, 0x63b8ccd6, 0xdde3f1d5,
        0x4f5fc86c, 0x74287311, 0xc67e542b, 0x546817ec, 0xf693cce9, 0x73d5116f, 0x74f3b9aa, 0x7dfed9d0,
    ]);
    reveal(round_s);
}

proof fn lemma_first_block_round_1()
    ensures
        round_s(seq![
            0x9eeb9385u32, 0xceaf27e0, 0xa8c1849a, 0x31f8b7d4, 0x25a65810, 0x02a17025, 0x63b8ccd6, 0xdde3f1d5,
            0x4f5fc86c, 0x74287311, 0xc67e542b, 0x546817ec, 0xf693cce9, 0x73d5116f, 0x74f3b9aa, 0x7dfed9d0,
        ], first_block(), 1) == seq![
            0x441f731fu32, 0xa25b6134, 0x6f00f569, 0xd027d7dc, 0x28fefe5d, 0x86dfc371, 0x37019446, 0x27c77da2,
            0xc7098bbb, 0xebd14fd1, 0xabe78604, 0x1d6a280a, 0x44ce553e, 0x85009033, 0x5fd1ec8f, 0xbb991a54,
        ],
{
    assert((0xf693cce9u32 ^ 0xc491eba4) == 0x3202274d
        && ((0x3202274du32 >> 16) | (0x3202274du32 << 16)) == 0x274d3202
        && (0x25a65810u32 ^ 0x76acfa6e) == 0x530aa27e
        && ((0x530aa27eu32 >> 12) | (0x530aa27eu32 << 20)) == 0x27e530aa
        && (0x274d3202u32 ^ 0xec771c59) == 0xcb3a2e5b
        && ((0xcb3a2e5bu32 >> 8) | (0xcb3a2e5bu32 << 24)) == 0x5bcb3a2e
        && (0x27e530aau32 ^ 0xd278349c) == 0xf59d0436
        && ((0xf59d0436u32 >> 7) | (0xf59d0436u32 << 25)) == 0x6deb3a08
        && (0x73d5116fu32 ^ 0xd150980a) == 0xa2858965
        && ((0xa2858965u32 >> 16) | (0xa2858965u32 << 16)) == 0x8965a285
        && (0x02a17025u32 ^ 0xfd8e1596) == 0xff2f65b3
        && ((0xff2f65b3u32 >> 12) | (0xff2f65b3u32 << 20)) == 0x5b3ff2f6
        && (0x8965a285u32 ^ 0x2c908b09) == 0xa5f5298c
        && ((0xa5f5298cu32 >> 8) | (0xa5f5298cu32 << 24)) == 0x8ca5f529
        && (0x5b3ff2f6u32 ^ 0x8a340abf) == 0xd10bf849
        && ((0xd10bf849u32 >> 7) | (0xd10bf849u32 << 25)) == 0x93a217f0
        && (0x74f3b9aau32 ^ 0x0c7a517a) == 0x7889e8d0
        && ((0x7889e8d0u32 >> 16) | (0x7889e8d0u32 << 16)) == 0xe8d07889
        && (0x63b8ccd6u32 ^ 0xaf4eccb4) == 0xccf60062
        && ((0xccf60062u32 >> 12) | (0xccf60062u32 << 20)) == 0x062ccf60
        && (0xe8d07889u32 ^ 0x12a720ea) == 0xfa775863
        && ((0xfa775863u32 >> 8) | (0xfa775863u32 << 24)) == 0x63fa7758
        && (0x062ccf60u32 ^ 0x1349440c) == 0x15658b6c
        && ((0x15658b6cu32 >> 7) | (0x15658b6cu32 << 25)) == 0xd82acb16
        && (0x7dfed9d0u32 ^ 0x0fdca9b7) == 0x72227067
        && ((0x72227067u32 >> 16) | (0x72227067u32 << 16)) == 0x70677222
        && (0xdde3f1d5u32 ^ 0xc4cf8a0e) == 0x192c7bdb
        && ((0x192c7bdbu32 >> 12) | (0x192c7bdbu32 << 20)) == 0xbdb192c7
        && (0x70677222u32 ^ 0xcd8e3c85) == 0xbde94ea7
        && ((0xbde94ea7u32 >> 8) | (0xbde94ea7u32 << 24)) == 0xa7bde94e
        && (0xbdb192c7u32 ^ 0x6c8d735c) == 0xd13ce19b
        && ((0xd13ce19bu32 >> 7) | (0xd13ce19bu32 << 25)) == 0x37a279c3
        && (0xa7bde94eu32 ^ 0x8019344b) == 0x27a4dd05
        && ((0x27a4dd05u32 >> 16) | (0x27a4dd05u32 << 16)) == 0xdd0527a4
        && (0x93a217f0u32 ^ 0xf04e6bb0) == 0x63ec7c40
        && ((0x63ec7c40u32 >> 12) | (0x63ec7c40u32 << 20)) == 0xc4063ec7
        && (0xdd0527a4u32 ^ 0x441f731f) == 0x991a54bb
        && ((0x991a54bbu32 >> 8) | (0x991a54bbu32 << 24)) == 0xbb991a54
        && (0xc4063ec7u32 ^ 0xabe78604) == 0x6fe1b8c3
        && ((0x6fe1b8c3u32 >> 7) | (0x6fe1b8c3u32 << 25)) == 0x86dfc371
        && (0x5bcb3a2eu32 ^ 0x04bb5620) == 0x5f706c0e
        && ((0x5f706c0eu32 >> 16) | (0x5f706c0eu32 << 16)) == 0x6c0e5f70
        && (0xd82acb16u32 ^ 0xd89bd2cc) == 0x00b119da
        && ((0x00b119dau32 >> 12) | (0x00b119dau32 << 20)) == 0x9da00b11
        && (0x6c0e5f70u32 ^ 0xa25b6134) == 0xce553e44
        && ((0xce553e44u32 >> 8) | (0xce553e44u32 << 24)) == 0x44ce553e
        && (0x9da00b11u32 ^ 0x1d6a280a) == 0x80ca231b
        && ((0x80ca231bu32 >> 7) | (0x80ca231bu32 << 25)) == 0x37019446
        && (0x8ca5f529u32 ^ 0x4a499ab9) == 0xc6ec6f90
        && ((0xc6ec6f90u32 >> 16) | (0xc6ec6f90u32 << 16)) == 0x6f90c6ec
        && (0x37a279c3u32 ^ 0x4208fb88) == 0x75aa824b
        && ((0x75aa824bu32 >> 12) | (0x75aa824bu32 << 20)) == 0x24b75aa8
        && (0x6f90c6ecu32 ^ 0x6f00f569) == 0x00903385
        && ((0x00903385u32 >> 8) | (0x00903385u32 << 24)) == 0x85009033
        && (0x24b75aa8u32 ^ 0xc7098bbb) == 0xe3bed113
        && ((0xe3bed113u32 >> 7) | (0xe3bed113u32 << 25)) == 0x27c77da2
        && (0x63fa7758u32 ^ 0x3b797693) == 0x588301cb
        && ((0x588301cbu32 >> 16) | (0x588301cbu32 << 16)) == 0x01cb5883
        && (0x6deb3a08u32 ^ 0x8bff6342) == 0xe614594a
        && ((0xe614594au32 >> 12) | (0xe614594au32 << 20)) == 0x94ae6145
        && (0x01cb5883u32 ^ 0xd027d7dc) == 0xd1ec8f5f
        && ((0xd1ec8f5fu32 >> 8) | (0xd1ec8f5fu32 << 24)) == 0x5fd1ec8f
        && (0x94ae6145u32 ^ 0xebd14fd1) == 0x7f7f2e94
        && ((0x7f7f2e94u32 >> 7) | (0x7f7f2e94u32 << 25)) == 0x28fefe5d) by (bit_vector);
    let m = first_block();
    let s = sigma_s(1);
    let v0 = seq![
        0x9eeb9385u32, 0xceaf27e0, 0xa8c1849a, 0x31f8b7d4, 0x25a65810, 0x02a17025, 0x63b8ccd6, 0xdde3f1d5,
        0x4f5fc86c, 0x74287311, 0xc67e542b, 0x546817ec, 0xf693cce9, 0x73d5116f, 0x74f3b9aa, 0x7dfed9d0,
    ];
    lemma_mixed(
        v0,
        (0, 4, 8, 12),
        15,
        11,
        (0xc491eba4, 0x3202274d, 0x274d3202, 0x76acfa6e, 0x530aa27e, 0x27e530aa),
        (0xec771c59, 0xcb3a2e5b, 0x5bcb3a2e, 0xd278349c, 0xf59d0436, 0x6deb3a08),
    );
    let v1 = mix_s(v0, 0, 4, 8, 12, m[s[0]], m[s[1]]);
    lemma_mixed(
        v1,
        (1, 5, 9, 13),
        5,
        9,
        (0xd150980a, 0xa2858965, 0x8965a285, 0xfd8e1596, 0xff2f65b3, 0x5b3ff2f6),
        (0x2c908b09, 0xa5f5298c, 0x8ca5f529, 0x8a340abf, 0xd10bf849, 0x93a217f0),
    );
    let v2 = mix_s(v1, 1, 5, 9, 13, m[s[2]], m[s[3]]);
    lemma_mixed(
        v2,
        (2, 6, 10, 14),
        10,
        16,
        (0x0c7a517a, 0x7889e8d0, 0xe8d07889, 0xaf4eccb4, 0xccf60062, 0x062ccf60),
        (0x12a720ea, 0xfa775863, 0x63fa7758, 0x1349440c, 0x15658b6c, 0xd82acb16),
    );
    let v3 = mix_s(v2, 2, 6, 10, 14, m[s[4]], m[s[5]]);
    lemma_mixed(
        v3,
        (3, 7, 11, 15),
        14,
        7,
        (0x0fdca9b7, 0x72227067, 0x70677222, 0xc4cf8a0e, 0x192c7bdb, 0xbdb192c7),
        (0xcd8e3c85, 0xbde94ea7, 0xa7bde94e, 0x6c8d735c, 0xd13ce19b, 0x37a279c3),
    );
    let v4 = mix_s(v3, 3, 7, 11, 15, m[s[6]], m[s[7]]);
    lemma_mixed(
        v4,
        (0, 5, 10, 15),
        2,
        13,
        (0x8019344b, 0x27a4dd05, 0xdd0527a4, 0xf04e6bb0, 0x63ec7c40, 0xc4063ec7),
        (0x441f731f, 0x991a54bb, 0xbb991a54, 0xabe78604, 0x6fe1b8c3, 0x86dfc371),
    );
    let v5 = mix_s(v4, 0, 5, 10, 15, m[s[8]], m[s[9]]);
    lemma_mixed(
        v5,
        (1, 6, 11, 12),
        1,
        3,
        (0x04bb5620, 0x5f706c0e, 0x6c0e5f70, 0xd89bd2cc, 0x00b119da, 0x9da00b11),
        (0xa25b6134, 0xce553e44, 0x44ce553e, 0x1d6a280a, 0x80ca231b, 0x37019446),
    );
    let v6 = mix_s(v5, 1, 6, 11, 12, m[s[10]], m[s[11]]);
    lemma_mixed(
        v6,
        (2, 7, 8, 13),
        12,
        8,
        (0x4a499ab9, 0xc6ec6f90, 0x6f90c6ec, 0x4208fb88, 0x75aa824b, 0x24b75aa8),
        (0x6f00f569, 0x00903385, 0x85009033, 0xc7098bbb, 0xe3bed113, 0x27c77da2),
    );
    let v7 = mix_s(v6, 2, 7, 8, 13, m[s[12]], m[s[13]]);
    lemma_mixed(
        v7,
        (3, 4, 9, 14),
        6,
        4,
        (0x3b797693, 0x588301cb, 0x01cb5883, 0x8bff6342, 0xe614594a, 0x94ae6145),
        (0xd027d7dc, 0xd1ec8f5f, 0x5fd1ec8f, 0xebd14fd1, 0x7f7f2e94, 0x28fefe5d),
    );
    let v8 = mix_s(v7, 3, 4, 9, 14, m[s[14]], m[s[15]]);
    assert(v8 =~= seq![
        0x441f731fu32, 0xa25b6134, 0x6f00f569, 0xd027d7dc, 0x28fefe5d, 0x86dfc371, 0x37019446, 0x27c77da2,
        0xc7098bbb, 0xebd14fd1, 0xabe78604, 0x1d6a280a, 0x44ce553e, 0x85009033, 0x5fd1ec8f, 0xbb991a54,
    ]);
    reveal(round_s);
}

proof fn lemma_first_block_round_2()
    ensures
        round_s(seq![
            0x441f731fu32, 0xa25b6134, 0x6f00f569, 0xd027d7dc, 0x28fefe5d, 0x86dfc371, 0x37019446, 0x27c77da2,
            0xc7098bbb, 0xebd14fd1, 0xabe78604, 0x1d6a280a, 0x44ce553e, 0x85009033, 0x5fd1ec8f, 0xbb991a54,
        ], first_block(), 2) == seq![
            0x140e6013u32, 0xbcf53647, 0x247bb404, 0x7cbbef8e, 0xb545034c, 0x27fd96bd, 0xe2932471, 0x8dfe9256,
            0x3ebb419e, 0x486d087d, 0x12e41a00, 0xa55b33e6, 0x65ab5093, 0x18e1706b, 0x7b13cb5b, 0x09c6cefd,
        ],
{
    assert((0x44ce553eu32 ^ 0x6d1e7188) == 0x29d024b6
        && ((0x29d024b6u32 >> 16) | (0x29d024b6u32 << 16)) == 0x24b629d0
        && (0x28fefe5du32 ^ 0xebbfb58b) == 0xc3414bd6
        && ((0xc3414bd6u32 >> 12) | (0xc3414bd6u32 << 20)) == 0xbd6c3414
        && (0x24b629d0u32 ^ 0x2a8aa5a5) == 0x0e3c8c75
        && ((0x0e3c8c75u32 >> 8) | (0x0e3c8c75u32 << 24)) == 0x750e3c8c
        && (0xbd6c3414u32 ^ 0x60cdf217) == 0xdda1c603
        && ((0xdda1c603u32 >> 7) | (0xdda1c603u32 << 25)) == 0x07bb438c
        && (0x85009033u32 ^ 0x293b24b2) == 0xac3bb481
        && ((0xac3bb481u32 >> 16) | (0xac3bb481u32 << 16)) == 0xb481ac3b
        && (0x86dfc371u32 ^ 0xa052fc0c) == 0x268d3f7d
        && ((0x268d3f7du32 >> 12) | (0x268d3f7du32 << 20)) == 0xf7d268d3
        && (0xb481ac3bu32 ^ 0x210d8d86) == 0x958c21bd
        && ((0x958c21bdu32 >> 8) | (0x958c21bdu32 << 24)) == 0xbd958c21
        && (0xf7d268d3u32 ^ 0x5de8882d) == 0xaa3ae0fe
        && ((0xaa3ae0feu32 >> 7) | (0xaa3ae0feu32 << 25)) == 0xfd5475c1
        && (0x5fd1ec8fu32 ^ 0xa60289b5) == 0xf9d3653a
        && ((0xf9d3653au32 >> 16) | (0xf9d3653au32 << 16)) == 0x653af9d3
        && (0x37019446u32 ^ 0x11227fd7) == 0x2623eb91
        && ((0x2623eb91u32 >> 12) | (0x2623eb91u32 << 20)) == 0xb912623e
        && (0x653af9d3u32 ^ 0x5f14ebf6) == 0x3a2e1225
        && ((0x3a2e1225u32 >> 8) | (0x3a2e1225u32 << 24)) == 0x253a2e12
        && (0xb912623eu32 ^ 0x365cade9) == 0x8f4ecfd7
        && ((0x8f4ecfd7u32 >> 7) | (0x8f4ecfd7u32 << 25)) == 0xaf1e9d9f
        && (0xbb991a54u32 ^ 0xf7ef558e) == 0x4c764fda
        && ((0x4c764fdau32 >> 16) | (0x4c764fdau32 << 16)) == 0x4fda4c76
        && (0x27c77da2u32 ^ 0x6d447480) == 0x4a830922
        && ((0x4a830922u32 >> 12) | (0x4a830922u32 << 20)) == 0x9224a830
        && (0x4fda4c76u32 ^ 0x8a13fdcc) == 0xc5c9b1ba
        && ((0xc5c9b1bau32 >> 8) | (0xc5c9b1bau32 << 24)) == 0xbac5c9b1
        && (0x9224a830u32 ^ 0x280a3e31) == 0xba2e9601
        && ((0xba2e9601u32 >> 7) | (0xba2e9601u32 << 25)) == 0x03745d2c
        && (0xbac5c9b1u32 ^ 0x27df1b71) == 0x9d1ad2c0
        && ((0x9d1ad2c0u32 >> 16) | (0x9d1ad2c0u32 << 16)) == 0xd2c09d1a
        && (0xfd5475c1u32 ^ 0x091d4b03) == 0xf4493ec2
        && ((0xf4493ec2u32 >> 12) | (0xf4493ec2u32 << 20)) == 0xec2f4493
        && (0xd2c09d1au32 ^ 0x140e6013) == 0xc6cefd09
        && ((0xc6cefd09u32 >> 8) | (0xc6cefd09u32 << 24)) == 0x09c6cefd
        && (0xec2f4493u32 ^ 0x12e41a00) == 0xfecb5e93
        && ((0xfecb5e93u32 >> 7) | (0xfecb5e93u32 << 25)) == 0x27fd96bd
        && (0x750e3c8cu32 ^ 0xd02c2b29) == 0xa52217a5
        && ((0xa52217a5u32 >> 16) | (0xa52217a5u32 << 16)) == 0x17a5a522
        && (0xaf1e9d9fu32 ^ 0x3fafe353) == 0x90b17ecc
        && ((0x90b17eccu32 >> 12) | (0x90b17eccu32 << 20)) == 0xecc90b17
        && (0x17a5a522u32 ^ 0xbcf53647) == 0xab509365
        && ((0xab509365u32 >> 8) | (0xab509365u32 << 24)) == 0x65ab5093
        && (0xecc90b17u32 ^ 0xa55b33e6) == 0x499238f1
        && ((0x499238f1u32 >> 7) | (0x499238f1u32 << 25)) == 0xe2932471
        && (0xbd958c21u32 ^ 0x6289492a) == 0xdf1cc50b
        && ((0xdf1cc50bu32 >> 16) | (0xdf1cc50bu32 << 16)) == 0xc50bdf1c
        && (0x03745d2cu32 ^ 0x25d9d133) == 0x26ad8c1f
        && ((0x26ad8c1fu32 >> 12) | (0x26ad8c1fu32 << 20)) == 0xc1f26ad8
        && (0xc50bdf1cu32 ^ 0x247bb404) == 0xe1706b18
        && ((0xe1706b18u32 >> 8) | (0xe1706b18u32 << 24)) == 0x18e1706b
        && (0xc1f26ad8u32 ^ 0x3ebb419e) == 0xff492b46
        && ((0xff492b46u32 >> 7) | (0xff492b46u32 << 25)) == 0x8dfe9256
        && (0x253a2e12u32 ^ 0x91cf4162) == 0xb4f56f70
        && ((0xb4f56f70u32 >> 16) | (0xb4f56f70u32 << 16)) == 0x6f70b4f5
        && (0x07bb438cu32 ^ 0xcd593d22) == 0xcae27eae
        && ((0xcae27eaeu32 >> 12) | (0xcae27eaeu32 << 20)) == 0xeaecae27
        && (0x6f70b4f5u32 ^ 0x7cbbef8e) == 0x13cb5b7b
        && ((0x13cb5b7bu32 >> 8) | (0x13cb5b7bu32 << 24)) == 0x7b13cb5b
        && (0xeaecae27u32 ^ 0x486d087d) == 0xa281a65a
        && ((0xa281a65au32 >> 7) | (0xa281a65au32 << 25)) == 0xb545034c) by (bit_vector);
    let m = first_block();
    let s = sigma_s(2);
    let v0 = seq![
        0x441f731fu32, 0xa25b6134, 0x6f00f569, 0xd027d7dc, 0x28fefe5d, 0x86dfc371, 0x37019446, 0x27c77da2,
        0xc7098bbb, 0xebd14fd1, 0xabe78604, 0x1d6a280a, 0x44ce553e, 0x85009033, 0x5fd1ec8f, 0xbb991a54,
    ];
    lemma_mixed(
        v0,
        (0, 4, 8, 12),
        12,
        9,
        (0x6d1e7188, 0x29d024b6, 0x24b629d0, 0xebbfb58b, 0xc3414bd6, 0xbd6c3414),
        (0x2a8aa5a5, 0x0e3c8c75, 0x750e3c8c, 0x60cdf217, 0xdda1c603, 0x07bb438c),
    );
    let v1 = mix_s(v0, 0, 4, 8, 12, m[s[0]], m[s[1]]);
    lemma_mixed(
        v1,
        (1, 5, 9, 13),
        13,
        1,
        (0x293b24b2, 0xac3bb481, 0xb481ac3b, 0xa052fc0c, 0x268d3f7d, 0xf7d268d3),
        (0x210d8d86, 0x958c21bd, 0xbd958c21, 0x5de8882d, 0xaa3ae0fe, 0xfd5475c1),
    );
    let v2 = mix_s(v1, 1, 5, 9, 13, m[s[2]], m[s[3]]);
    lemma_mixed(
        v2,
        (2, 6, 10, 14),
        6,
        3,
        (0xa60289b5, 0xf9d3653a, 0x653af9d3, 0x11227fd7, 0x2623eb91, 0xb912623e),
        (0x5f14ebf6, 0x3a2e1225, 0x253a2e12, 0x365cade9, 0x8f4ecfd7, 0xaf1e9d9f),
    );
    let v3 = mix_s(v2, 2, 6, 10, 14, m[s[4]], m[s[5]]);
    lemma_mixed(
        v3,
        (3, 7, 11, 15),
        16,
        14,
        (0xf7ef558e, 0x4c764fda, 0x4fda4c76, 0x6d447480, 0x4a830922, 0x9224a830),
        (0x8a13fdcc, 0xc5c9b1ba, 0xbac5c9b1, 0x280a3e31, 0xba2e9601, 0x03745d2c),
    );
    let v4 = mix_s(v3, 3, 7, 11, 15, m[s[6]], m[s[7]]);
    lemma_mixed(
        v4,
        (0, 5, 10, 15),
        11,
        15,
        (0x27df1b71, 0x9d1ad2c0, 0xd2c09d1a, 0x091d4b03, 0xf4493ec2, 0xec2f4493),
        (0x140e6013, 0xc6cefd09, 0x09c6cefd, 0x12e41a00, 0xfecb5e93, 0x27fd96bd),
    );
    let v5 = mix_s(v4, 0, 5, 10, 15, m[s[8]], m[s[9]]);
    lemma_mixed(
        v5,
        (1, 6, 11, 12),
        4,
        7,
        (0xd02c2b29, 0xa52217a5, 0x17a5a522, 0x3fafe353, 0x90b17ecc, 0xecc90b17),
        (0xbcf53647, 0xab509365, 0x65ab5093, 0xa55b33e6, 0x499238f1, 0xe2932471),
    );
    let v6 = mix_s(v5, 1, 6, 11, 12, m[s[10]], m[s[11]]);
    lemma_mixed(
        v6,
        (2, 7, 8, 13),
        8,
        2,
        (0x6289492a, 0xdf1cc50b, 0xc50bdf1c, 0x25d9d133, 0x26ad8c1f, 0xc1f26ad8),
        (0x247bb404, 0xe1706b18, 0x18e1706b, 0x3ebb419e, 0xff492b46, 0x8dfe9256),
    );
    let v7 = mix_s(v6, 2, 7, 8, 13, m[s[12]], m[s[13]]);
    lemma_mixed(
        v7,
        (3, 4, 9, 14),
        10,
        5,
        (0x91cf4162, 0xb4f56f70, 0x6f70b4f5, 0xcd593d22, 0xcae27eae, 0xeaecae27),
        (0x7cbbef8e, 0x13cb5b7b, 0x7b13cb5b, 0x486d087d, 0xa281a65a, 0xb545034c),
    );
    let v8 = mix_s(v7, 3, 4, 9, 14, m[s[14]], m[s[15]]);
    assert(v8 =~= seq![
        0x140e6013u32, 0xbcf53647, 0x247bb404, 0x7cbbef8e, 0xb545034c, 0x27fd96bd, 0xe2932471, 0x8dfe9256,
        0x3ebb419e, 0x486d087d, 0x12e41a00, 0xa55b33e6, 0x65ab5093, 0x18e1706b, 0x7b13cb5b, 0x09c6cefd,
    ]);
    reveal(round_s);
}

proof fn lemma_first_block_round_3()
    ensures
        round_s(seq![
            0x140e6013u32, 0xbcf53647, 0x247bb404, 0x7cbbef8e, 0xb545034c, 0x27fd96bd, 0xe2932471, 0x8dfe9256,
            0x3ebb419e, 0x486d087d, 0x12e41a00, 0xa55b33e6, 0x65ab5093, 0x18e1706b, 0x7b13cb5b, 0x09c6cefd,
        ], first_block(), 3) == seq![
            0x81c0c436u32, 0xac034e8e, 0xa90b1abe, 0x10d422cc, 0x4b0f52e6, 0xe28575bd, 0xc3cc7834, 0x84fc84bf,
            0x2439dead, 0x9a6b4519, 0x4642f00a, 0x4335ea95, 0xe2fac2af, 0x8b975694, 0xe3ff3447, 0xef1becad,
        ],
{
    assert((0x65ab5093u32 ^ 0xc9536367) == 0xacf833f4
        && ((0xacf833f4u32 >> 16) | (0xacf833f4u32 << 16)) == 0x33f4acf8
        && (0xb545034cu32 ^ 0x72afee96) == 0xc7eaedda
        && ((0xc7eaeddau32 >> 12) | (0xc7eaeddau32 << 20)) == 0xddac7eae
        && (0x33f4acf8u32 ^ 0xa6ffe21f) == 0x950b4ee7
        && ((0x950b4ee7u32 >> 8) | (0x950b4ee7u32 << 24)) == 0xe7950b4e
        && (0xddac7eaeu32 ^ 0x5a44f9e4) == 0x87e8874a
        && ((0x87e8874au32 >> 7) | (0x87e8874au32 << 25)) == 0x950fd10e
        && (0x18e1706bu32 ^ 0xe4f2cd08) == 0xfc13bd63
        && ((0xfc13bd63u32 >> 16) | (0xfc13bd63u32 << 16)) == 0xbd63fc13
        && (0x27fd96bdu32 ^ 0x05d10490) == 0x222c922d
        && ((0x222c922du32 >> 12) | (0x222c922du32 << 20)) == 0x22d222c9
        && (0xbd63fc13u32 ^ 0x07c4efd3) == 0xbaa713c0
        && ((0xbaa713c0u32 >> 8) | (0xbaa713c0u32 << 24)) == 0xc0baa713
        && (0x22d222c9u32 ^ 0xc68baba3) == 0xe459896a
        && ((0xe459896au32 >> 7) | (0xe459896au32 << 25)) == 0xd5c8b312
        && (0x7b13cb5bu32 ^ 0x070ed883) == 0x7c1d13d8
        && ((0x7c1d13d8u32 >> 16) | (0x7c1d13d8u32 << 16)) == 0x13d87c1d
        && (0xe2932471u32 ^ 0x26bc961d) == 0xc42fb26c
        && ((0xc42fb26cu32 >> 12) | (0xc42fb26cu32 << 20)) == 0x26cc42fb
        && (0x13d87c1du32 ^ 0x2ddb1b8b) == 0x3e036796
        && ((0x3e036796u32 >> 8) | (0x3e036796u32 << 24)) == 0x963e0367
        && (0x26cc42fbu32 ^ 0xbcfa9984) == 0x9a36db7f
        && ((0x9a36db7fu32 >> 7) | (0x9a36db7fu32 << 25)) == 0xff346db6
        && (0x09c6cefdu32 ^ 0x0aba81f0) == 0x037c4f0d
        && ((0x037c4f0du32 >> 16) | (0x037c4f0du32 << 16)) == 0x4f0d037c
        && (0x8dfe9256u32 ^ 0xf4683762) == 0x7996a534
        && ((0x7996a534u32 >> 12) | (0x7996a534u32 << 20)) == 0x5347996a
        && (0x4f0d037cu32 ^ 0x5e021b69) == 0x110f1815
        && ((0x110f1815u32 >> 8) | (0x110f1815u32 << 24)) == 0x15110f18
        && (0x5347996au32 ^ 0x0979467a) == 0x5a3edf10
        && ((0x5a3edf10u32 >> 7) | (0x5a3edf10u32 << 25)) == 0x20b47dbe
        && (0x15110f18u32 ^ 0x7cc89534) == 0x69d99a2c
        && ((0x69d99a2cu32 >> 16) | (0x69d99a2cu32 << 16)) == 0x9a2c69d9
        && (0xd5c8b312u32 ^ 0x5727035d) == 0x82efb04f
        && ((0x82efb04fu32 >> 12) | (0x82efb04fu32 << 20)) == 0x04f82efb
        && (0x9a2c69d9u32 ^ 0x81c0c436) == 0x1becadef
        && ((0x1becadefu32 >> 8) | (0x1becadefu32 << 24)) == 0xef1becad
        && (0x04f82efbu32 ^ 0x4642f00a) == 0x42badef1
        && ((0x42badef1u32 >> 7) | (0x42badef1u32 << 25)) == 0xe28575bd
        && (0xe7950b4eu32 ^ 0x06f95d8f) == 0xe16c56c1
        && ((0xe16c56c1u32 >> 16) | (0xe16c56c1u32 << 16)) == 0x56c1e16c
        && (0xff346db6u32 ^ 0x603b27e6) == 0x9f0f4a50
        && ((0x9f0f4a50u32 >> 12) | (0x9f0f4a50u32 << 20)) == 0xa509f0f4
        && (0x56c1e16cu32 ^ 0xac034e8e) == 0xfac2afe2
        && ((0xfac2afe2u32 >> 8) | (0xfac2afe2u32 << 24)) == 0xe2fac2af
        && (0xa509f0f4u32 ^ 0x4335ea95) == 0xe63c1a61
        && ((0xe63c1a61u32 >> 7) | (0xe63c1a61u32 << 25)) == 0xc3cc7834
        && (0xc0baa713u32 ^ 0x4e8f994e) == 0x8e353e5d
        && ((0x8e353e5du32 >> 16) | (0x8e353e5du32 << 16)) == 0x3e5d8e35
        && (0x20b47dbeu32 ^ 0x98a28819) == 0xb816f5a7
        && ((0xb816f5a7u32 >> 12) | (0xb816f5a7u32 << 20)) == 0x5a7b816f
        && (0x3e5d8e35u32 ^ 0xa90b1abe) == 0x9756948b
        && ((0x9756948bu32 >> 8) | (0x9756948bu32 << 24)) == 0x8b975694
        && (0x5a7b816fu32 ^ 0x2439dead) == 0x7e425fc2
        && ((0x7e425fc2u32 >> 7) | (0x7e425fc2u32 << 25)) == 0x84fc84bf
        && (0x963e0367u32 ^ 0xf311ec87) == 0x652fefe0
        && ((0x652fefe0u32 >> 16) | (0x652fefe0u32 << 16)) == 0xefe0652f
        && (0x950fd10eu32 ^ 0xb66c10d2) == 0x2363c1dc
        && ((0x2363c1dcu32 >> 12) | (0x2363c1dcu32 << 20)) == 0x1dc2363c
        && (0xefe0652fu32 ^ 0x10d422cc) == 0xff3447e3
        && ((0xff3447e3u32 >> 8) | (0xff3447e3u32 << 24)) == 0xe3ff3447
        && (0x1dc2363cu32 ^ 0x9a6b4519) == 0x87a97325
        && ((0x87a97325u32 >> 7) | (0x87a97325u32 << 25)) == 0x4b0f52e6) by (bit_vector);
    let m = first_block();
    let s = sigma_s(3);
    let v0 = seq![
        0x140e6013u32, 0xbcf53647, 0x247bb404, 0x7cbbef8e, 0xb545034c, 0x27fd96bd, 0xe2932471, 0x8dfe9256,
        0x3ebb419e, 0x486d087d, 0x12e41a00, 0xa55b33e6, 0x65ab5093, 0x18e1706b, 0x7b13cb5b, 0x09c6cefd,
    ];
    lemma_mixed(
        v0,
        (0, 4, 8, 12),
        8,
        10,
        (0xc9536367, 0xacf833f4, 0x33f4acf8, 0x72afee96, 0xc7eaedda, 0xddac7eae),
        (0xa6ffe21f, 0x950b4ee7, 0xe7950b4e, 0x5a44f9e4, 0x87e8874a, 0x950fd10e),
    );
    let v1 = mix_s(v0, 0, 4, 8, 12, m[s[0]], m[s[1]]);
    lemma_mixed(
        v1,
        (1, 5, 9, 13),
        4,
        2,
        (0xe4f2cd08, 0xfc13bd63, 0xbd63fc13, 0x05d10490, 0x222c922d, 0x22d222c9),
        (0x07c4efd3, 0xbaa713c0, 0xc0baa713, 0xc68baba3, 0xe459896a, 0xd5c8b312),
    );
    let v2 = mix_s(v1, 1, 5, 9, 13, m[s[2]], m[s[3]]);
    lemma_mixed(
        v2,
        (2, 6, 10, 14),
        14,
        13,
        (0x070ed883, 0x7c1d13d8, 0x13d87c1d, 0x26bc961d, 0xc42fb26c, 0x26cc42fb),
        (0x2ddb1b8b, 0x3e036796, 0x963e0367, 0xbcfa9984, 0x9a36db7f, 0xff346db6),
    );
    let v3 = mix_s(v2, 2, 6, 10, 14, m[s[4]], m[s[5]]);
    lemma_mixed(
        v3,
        (3, 7, 11, 15),
        12,
        15,
        (0x0aba81f0, 0x037c4f0d, 0x4f0d037c, 0xf4683762, 0x7996a534, 0x5347996a),
        (0x5e021b69, 0x110f1815, 0x15110f18, 0x0979467a, 0x5a3edf10, 0x20b47dbe),
    );
    let v4 = mix_s(v3, 3, 7, 11, 15, m[s[6]], m[s[7]]);
    lemma_mixed(
        v4,
        (0, 5, 10, 15),
        3,
        7,
        (0x7cc89534, 0x69d99a2c, 0x9a2c69d9, 0x5727035d, 0x82efb04f, 0x04f82efb),
        (0x81c0c436, 0x1becadef, 0xef1becad, 0x4642f00a, 0x42badef1, 0xe28575bd),
    );
    let v5 = mix_s(v4, 0, 5, 10, 15, m[s[8]], m[s[9]]);
    lemma_mixed(
        v5,
        (1, 6, 11, 12),
        6,
        11,
        (0x06f95d8f, 0xe16c56c1, 0x56c1e16c, 0x603b27e6, 0x9f0f4a50, 0xa509f0f4),
        (0xac034e8e, 0xfac2afe2, 0xe2fac2af, 0x4335ea95, 0xe63c1a61, 0xc3cc7834),
    );
    let v6 = mix_s(v5, 1, 6, 11, 12, m[s[10]], m[s[11]]);
    lemma_mixed(
        v6,
        (2, 7, 8, 13),
        5,
        1,
        (0x4e8f994e, 0x8e353e5d, 0x3e5d8e35, 0x98a28819, 0xb816f5a7, 0x5a7b816f),
        (0xa90b1abe, 0x9756948b, 0x8b975694, 0x2439dead, 0x7e425fc2, 0x84fc84bf),
    );
    let v7 = mix_s(v6, 2, 7, 8, 13, m[s[12]], m[s[13]]);
    lemma_mixed(
        v7,
        (3, 4, 9, 14),
        16,
        9,
        (0xf311ec87, 0x652fefe0, 0xefe0652f, 0xb66c10d2, 0x2363c1dc, 0x1dc2363c),
        (0x10d422cc, 0xff3447e3, 0xe3ff3447, 0x9a6b4519, 0x87a97325, 0x4b0f52e6),
    );
    let v8 = mix_s(v7, 3, 4, 9, 14, m[s[14]], m[s[15]]);
    assert(v8 =~= seq![
        0x81c0c436u32, 0xac034e8e, 0xa90b1abe, 0x10d422cc, 0x4b0f52e6, 0xe28575bd, 0xc3cc7834, 0x84fc84bf,
        0x2439dead, 0x9a6b4519, 0x4642f00a, 0x4335ea95, 0xe2fac2af, 0x8b975694, 0xe3ff3447, 0xef1becad,
    ]);
    reveal(round_s);
}

proof fn lemma_first_block_round_4()
    ensures
        round_s(seq![
            0x81c0c436u32, 0xac034e8e, 0xa90b1abe, 0x10d422cc, 0x4b0f52e6, 0xe28575bd, 0xc3cc7834, 0x84fc84bf,
            0x2439dead, 0x9a6b4519, 0x4642f00a, 0x4335ea95, 0xe2fac2af, 0x8b975694, 0xe3ff3447, 0xef1becad,
        ], first_block(), 4) == seq![
            0x35f13e7fu32, 0xdb872433, 0x964104e1, 0xf4a70de0, 0x895966a0, 0xfdf16a87, 0xb5e46fff, 0x273ce4c2,
            0x910d294a, 0x922c2087, 0xbb608aa1, 0x0e94c35f, 0xaa5e4b3c, 0x340a8431, 0x9ce1a119, 0x9cbac583,
        ],
{
    assert((0xe2fac2afu32 ^ 0xccd01726) == 0x2e2ad589
        && ((0x2e2ad589u32 >> 16) | (0x2e2ad589u32 << 16)) == 0xd5892e2a
        && (0x4b0f52e6u32 ^ 0xf9c30cd7) == 0xb2cc5e31
        && ((0xb2cc5e31u32 >> 12) | (0xb2cc5e31u32 << 20)) == 0xe31b2cc5
        && (0xd5892e2au32 ^ 0xafeb43ec) == 0x7a626dc6
        && ((0x7a626dc6u32 >> 8) | (0x7a626dc6u32 << 24)) == 0xc67a626d
        && (0xe31b2cc5u32 ^ 0xc03d6f44) == 0x23264381
        && ((0x23264381u32 >> 7) | (0x23264381u32 << 25)) == 0x02464c87
        && (0x8b975694u32 ^ 0x8e88c451) == 0x051f92c5
        && ((0x051f92c5u32 >> 16) | (0x051f92c5u32 << 16)) == 0x92c5051f
        && (0xe28575bdu32 ^ 0x2d304a38) == 0xcfb53f85
        && ((0xcfb53f85u32 >> 12) | (0xcfb53f85u32 << 20)) == 0xf85cfb53
        && (0x92c5051fu32 ^ 0x86e5bfac) == 0x1420bab3
        && ((0x1420bab3u32 >> 8) | (0x1420bab3u32 << 24)) == 0xb31420ba
        && (0xf85cfb53u32 ^ 0xe0446af2) == 0x181891a1
        && ((0x181891a1u32 >> 7) | (0x181891a1u32 << 25)) == 0x42303123
        && (0xe3ff3447u32 ^ 0x6cd792f5) == 0x8f28a6b2
        && ((0x8f28a6b2u32 >> 16) | (0x8f28a6b2u32 << 16)) == 0xa6b28f28
        && (0xc3cc7834u32 ^ 0xecf57f32) == 0x2f390706
        && ((0x2f390706u32 >> 12) | (0x2f390706u32 << 20)) == 0x7062f390
        && (0xa6b28f28u32 ^ 0xdd3a868a) == 0x7b8809a2
        && ((0x7b8809a2u32 >> 8) | (0x7b8809a2u32 << 24)) == 0xa27b8809
        && (0x7062f390u32 ^ 0x8f71073b) == 0xff13f4ab
        && ((0xff13f4abu32 >> 7) | (0xff13f4abu32 << 25)) == 0x57fe27e9
        && (0xef1becadu32 ^ 0x95d0a796) == 0x7acb4b3b
        && ((0x7acb4b3bu32 >> 16) | (0x7acb4b3bu32 << 16)) == 0x4b3b7acb
        && (0x84fc84bfu32 ^ 0x8e716560) == 0x0a8de1df
        && ((0x0a8de1dfu32 >> 12) | (0x0a8de1dfu32 << 20)) == 0x1df0a8de
        && (0x4b3b7acbu32 ^ 0xb3c15084) == 0xf8fa2a4f
        && ((0xf8fa2a4fu32 >> 8) | (0xf8fa2a4fu32 << 24)) == 0x4ff8fa2a
        && (0x1df0a8deu32 ^ 0xde6a5f8a) == 0xc39af754
        && ((0xc39af754u32 >> 7) | (0xc39af754u32 << 25)) == 0xa98735ee
        && (0x4ff8fa2au32 ^ 0xf21b751e) == 0xbde38f34
        && ((0xbde38f34u32 >> 16) | (0xbde38f34u32 << 16)) == 0x8f34bde3
        && (0x42303123u32 ^ 0x1ea5c51e) == 0x5c95f43d
        && ((0x5c95f43du32 >> 12) | (0x5c95f43du32 << 20)) == 0x43d5c95f
        && (0x8f34bde3u32 ^ 0x35f13e7f) == 0xbac5839c
        && ((0xbac5839cu32 >> 8) | (0xbac5839cu32 << 24)) == 0x9cbac583
        && (0x43d5c95fu32 ^ 0xbb608aa1) == 0xf8b543fe
        && ((0xf8b543feu32 >> 7) | (0xf8b543feu32 << 25)) == 0xfdf16a87
        && (0xc67a626du32 ^ 0xdee3e7a1) == 0x189985cc
        && ((0x189985ccu32 >> 16) | (0x189985ccu32 << 16)) == 0x85cc1899
        && (0x57fe27e9u32 ^ 0x64367823) == 0x33c85fca
        && ((0x33c85fcau32 >> 12) | (0x33c85fcau32 << 20)) == 0xfca33c85
        && (0x85cc1899u32 ^ 0xdb872433) == 0x5e4b3caa
        && ((0x5e4b3caau32 >> 8) | (0x5e4b3caau32 << 24)) == 0xaa5e4b3c
        && (0xfca33c85u32 ^ 0x0e94c35f) == 0xf237ffda
        && ((0xf237ffdau32 >> 7) | (0xf237ffdau32 << 25)) == 0xb5e46fff
        && (0xb31420bau32 ^ 0x86c1bc7f) == 0x35d59cc5
        && ((0x35d59cc5u32 >> 16) | (0x35d59cc5u32 << 16)) == 0x9cc535d5
        && (0xa98735eeu32 ^ 0x5d02a519) == 0xf48590f7
        && ((0xf48590f7u32 >> 12) | (0xf48590f7u32 << 20)) == 0x0f7f4859
        && (0x9cc535d5u32 ^ 0x964104e1) == 0x0a843134
        && ((0x0a843134u32 >> 8) | (0x0a843134u32 << 24)) == 0x340a8431
        && (0x0f7f4859u32 ^ 0x910d294a) == 0x9e726113
        && ((0x9e726113u32 >> 7) | (0x9e726113u32 << 25)) == 0x273ce4c2
        && (0xa27b8809u32 ^ 0xb6079d0f) == 0x147c1506
        && ((0x147c1506u32 >> 16) | (0x147c1506u32 << 16)) == 0x1506147c
        && (0x02464c87u32 ^ 0xf54a7f6e) == 0xf70c33e9
        && ((0xf70c33e9u32 >> 12) | (0xf70c33e9u32 << 20)) == 0x3e9f70c3
        && (0x1506147cu32 ^ 0xf4a70de0) == 0xe1a1199c
        && ((0xe1a1199cu32 >> 8) | (0xe1a1199cu32 << 24)) == 0x9ce1a119
        && (0x3e9f70c3u32 ^ 0x922c2087) == 0xacb35044
        && ((0xacb35044u32 >> 7) | (0xacb35044u32 << 25)) == 0x895966a0) by (bit_vector);
    let m = first_block();
    let s = sigma_s(4);
    let v0 = seq![
        0x81c0c436u32, 0xac034e8e, 0xa90b1abe, 0x10d422cc, 0x4b0f52e6, 0xe28575bd, 0xc3cc7834, 0x84fc84bf,
        0x2439dead, 0x9a6b4519, 0x4642f00a, 0x4335ea95, 0xe2fac2af, 0x8b975694, 0xe3ff3447, 0xef1becad,
    ];
    lemma_mixed(
        v0,
        (0, 4, 8, 12),
        10,
        1,
        (0xccd01726, 0x2e2ad589, 0xd5892e2a, 0xf9c30cd7, 0xb2cc5e31, 0xe31b2cc5),
        (0xafeb43ec, 0x7a626dc6, 0xc67a626d, 0xc03d6f44, 0x23264381, 0x02464c87),
    );
    let v1 = mix_s(v0, 0, 4, 8, 12, m[s[0]], m[s[1]]);
    lemma_mixed(
        v1,
        (1, 5, 9, 13),
        6,
        8,
        (0x8e88c451, 0x051f92c5, 0x92c5051f, 0x2d304a38, 0xcfb53f85, 0xf85cfb53),
        (0x86e5bfac, 0x1420bab3, 0xb31420ba, 0xe0446af2, 0x181891a1, 0x42303123),
    );
    let v2 = mix_s(v1, 1, 5, 9, 13, m[s[2]], m[s[3]]);
    lemma_mixed(
        v2,
        (2, 6, 10, 14),
        3,
        5,
        (0x6cd792f5, 0x8f28a6b2, 0xa6b28f28, 0xecf57f32, 0x2f390706, 0x7062f390),
        (0xdd3a868a, 0x7b8809a2, 0xa27b8809, 0x8f71073b, 0xff13f4ab, 0x57fe27e9),
    );
    let v3 = mix_s(v2, 2, 6, 10, 14, m[s[4]], m[s[5]]);
    lemma_mixed(
        v3,
        (3, 7, 11, 15),
        11,
        16,
        (0x95d0a796, 0x7acb4b3b, 0x4b3b7acb, 0x8e716560, 0x0a8de1df, 0x1df0a8de),
        (0xb3c15084, 0xf8fa2a4f, 0x4ff8fa2a, 0xde6a5f8a, 0xc39af754, 0xa98735ee),
    );
    let v4 = mix_s(v3, 3, 7, 11, 15, m[s[6]], m[s[7]]);
    lemma_mixed(
        v4,
        (0, 5, 10, 15),
        15,
        2,
        (0xf21b751e, 0xbde38f34, 0x8f34bde3, 0x1ea5c51e, 0x5c95f43d, 0x43d5c95f),
        (0x35f13e7f, 0xbac5839c, 0x9cbac583, 0xbb608aa1, 0xf8b543fe, 0xfdf16a87),
    );
    let v5 = mix_s(v4, 0, 5, 10, 15, m[s[8]], m[s[9]]);
    lemma_mixed(
        v5,
        (1, 6, 11, 12),
        12,
        13,
        (0xdee3e7a1, 0x189985cc, 0x85cc1899, 0x64367823, 0x33c85fca, 0xfca33c85),
        (0xdb872433, 0x5e4b3caa, 0xaa5e4b3c, 0x0e94c35f, 0xf237ffda, 0xb5e46fff),
    );
    let v6 = mix_s(v5, 1, 6, 11, 12, m[s[10]], m[s[11]]);
    lemma_mixed(
        v6,
        (2, 7, 8, 13),
        7,
        9,
        (0x86c1bc7f, 0x35d59cc5, 0x9cc535d5, 0x5d02a519, 0xf48590f7, 0x0f7f4859),
        (0x964104e1, 0x0a843134, 0x340a8431, 0x910d294a, 0x9e726113, 0x273ce4c2),
    );
    let v7 = mix_s(v6, 2, 7, 8, 13, m[s[12]], m[s[13]]);
    lemma_mixed(
        v7,
        (3, 4, 9, 14),
        4,
        14,
        (0xb6079d0f, 0x147c1506, 0x1506147c, 0xf54a7f6e, 0xf70c33e9, 0x3e9f70c3),
        (0xf4a70de0, 0xe1a1199c, 0x9ce1a119, 0x922c2087, 0xacb35044, 0x895966a0),
    );
    let v8 = mix_s(v7, 3, 4, 9, 14, m[s[14]], m[s[15]]);
    assert(v8 =~= seq![
        0x35f13e7fu32, 0xdb872433, 0x964104e1, 0xf4a70de0, 0x895966a0, 0xfdf16a87, 0xb5e46fff, 0x273ce4c2,
        0x910d294a, 0x922c2087, 0xbb608aa1, 0x0e94c35f, 0xaa5e4b3c, 0x340a8431, 0x9ce1a119, 0x9cbac583,
    ]);
    reveal(round_s);
}

proof fn lemma_first_block_round_5()
    ensures
        round_s(seq![
            0x35f13e7fu32, 0xdb872433, 0x964104e1, 0xf4a70de0, 0x895966a0, 0xfdf16a87, 0xb5e46fff, 0x273ce4c2,
            0x910d294a, 0x922c2087, 0xbb608aa1, 0x0e94c35f, 0xaa5e4b3c, 0x340a8431, 0x9ce1a119, 0x9cbac583,
        ], first_block(), 5) == seq![
            0x56ad346au32, 0x499bc02e, 0xca6ca9a2, 0x0981f6c1, 0x14520663, 0xce764f1e, 0x826a164d, 0xa5ca9688,
            0x730b7d6b, 0x4894a468, 0x927a65f9, 0x9f8f8c2a, 0x9878bf1f, 0xd514467d, 0x6b564455, 0x11bd8e09,
        ],
{
    assert((0xaa5e4b3cu32 ^ 0xbf4aa522) == 0x1514ee1e
        && ((0x1514ee1eu32 >> 16) | (0x1514ee1eu32 << 16)) == 0xee1e1514
        && (0x895966a0u32 ^ 0x7f2b3e5e) == 0xf67258fe
        && ((0xf67258feu32 >> 12) | (0xf67258feu32 << 20)) == 0x8fef6725
        && (0xee1e1514u32 ^ 0x4f3a0c54) == 0xa1241940
        && ((0xa1241940u32 >> 8) | (0xa1241940u32 << 24)) == 0x40a12419
        && (0x8fef6725u32 ^ 0xbfcc6277) == 0x30230552
        && ((0x30230552u32 >> 7) | (0x30230552u32 << 25)) == 0xa460460a
        && (0x340a8431u32 ^ 0xd9788ec1) == 0xed720af0
        && ((0xed720af0u32 >> 16) | (0xed720af0u32 << 16)) == 0x0af0ed72
        && (0xfdf16a87u32 ^ 0x9d1d0df9) == 0x60ec677e
        && ((0x60ec677eu32 >> 12) | (0x60ec677eu32 << 20)) == 0x77e60ec6
        && (0x0af0ed72u32 ^ 0x515e9d92) == 0x5bae70e0
        && ((0x5bae70e0u32 >> 8) | (0x5bae70e0u32 << 24)) == 0xe05bae70
        && (0x77e60ec6u32 ^ 0x7d78bc69) == 0x0a9eb2af
        && ((0x0a9eb2afu32 >> 7) | (0x0a9eb2afu32 << 25)) == 0x5e153d65
        && (0x9ce1a119u32 ^ 0x4c2574e1) == 0xd0c4d5f8
        && ((0xd0c4d5f8u32 >> 16) | (0xd0c4d5f8u32 << 16)) == 0xd5f8d0c4
        && (0xb5e46fffu32 ^ 0x91595b65) == 0x24bd349a
        && ((0x24bd349au32 >> 12) | (0x24bd349au32 << 20)) == 0x49a24bd3
        && (0xd5f8d0c4u32 ^ 0x95c7c0c0) == 0x403f1004
        && ((0x403f1004u32 >> 8) | (0x403f1004u32 << 24)) == 0x04403f10
        && (0x49a24bd3u32 ^ 0x95999a75) == 0xdc3bd1a6
        && ((0xdc3bd1a6u32 >> 7) | (0xdc3bd1a6u32 << 25)) == 0x4db877a3
        && (0x9cbac583u32 ^ 0x1be3f2ab) == 0x87593728
        && ((0x87593728u32 >> 16) | (0x87593728u32 << 16)) == 0x37288759
        && (0x273ce4c2u32 ^ 0x45bd4ab8) == 0x6281ae7a
        && ((0x6281ae7au32 >> 12) | (0x6281ae7au32 << 20)) == 0xe7a6281a
        && (0x37288759u32 ^ 0x038a1ac9) == 0x34a29d90
        && ((0x34a29d90u32 >> 8) | (0x34a29d90u32 << 24)) == 0x9034a29d
        && (0xe7a6281au32 ^ 0xd5f1ed55) == 0x3257c54f
        && ((0x3257c54fu32 >> 7) | (0x3257c54fu32 << 25)) == 0x9e64af8a
        && (0x9034a29du32 ^ 0xad4f49be) == 0x3d7beb23
        && ((0x3d7beb23u32 >> 16) | (0x3d7beb23u32 << 16)) == 0xeb233d7b
        && (0x5e153d65u32 ^ 0x80bcd7f0) == 0xdea9ea95
        && ((0xdea9ea95u32 >> 12) | (0xdea9ea95u32 << 20)) == 0xa95dea9e
        && (0xeb233d7bu32 ^ 0x56ad346a) == 0xbd8e0911
        && ((0xbd8e0911u32 >> 8) | (0xbd8e0911u32 << 24)) == 0x11bd8e09
        && (0xa95dea9eu32 ^ 0x927a65f9) == 0x3b278f67
        && ((0x3b278f67u32 >> 7) | (0x3b278f67u32 << 25)) == 0xce764f1e
        && (0x40a12419u32 ^ 0x9f17153d) == 0xdfb63124
        && ((0xdfb63124u32 >> 16) | (0xdfb63124u32 << 16)) == 0x3124dfb6
        && (0x4db877a3u32 ^ 0x0716cd0b) == 0x4aaebaa8
        && ((0x4aaebaa8u32 >> 12) | (0x4aaebaa8u32 << 20)) == 0xaa84aaeb
        && (0x3124dfb6u32 ^ 0x499bc02e) == 0x78bf1f98
        && ((0x78bf1f98u32 >> 8) | (0x78bf1f98u32 << 24)) == 0x9878bf1f
        && (0xaa84aaebu32 ^ 0x9f8f8c2a) == 0x350b26c1
        && ((0x350b26c1u32 >> 7) | (0x350b26c1u32 << 25)) == 0x826a164d
        && (0xe05bae70u32 ^ 0x342c705a) == 0xd477de2a
        && ((0xd477de2au32 >> 16) | (0xd477de2au32 << 16)) == 0xde2ad477
        && (0x9e64af8au32 ^ 0x9df736ee) == 0x03939964
        && ((0x03939964u32 >> 12) | (0x03939964u32 << 20)) == 0x96403939
        && (0xde2ad477u32 ^ 0xca6ca9a2) == 0x14467dd5
        && ((0x14467dd5u32 >> 8) | (0x14467dd5u32 << 24)) == 0xd514467d
        && (0x96403939u32 ^ 0x730b7d6b) == 0xe54b4452
        && ((0xe54b4452u32 >> 7) | (0xe54b4452u32 << 25)) == 0xa5ca9688
        && (0x04403f10u32 ^ 0xa7ea60d5) == 0xa3aa5fc5
        && ((0xa3aa5fc5u32 >> 16) | (0xa3aa5fc5u32 << 16)) == 0x5fc5a3aa
        && (0xa460460au32 ^ 0xdd3e6013) == 0x795e2619
        && ((0x795e2619u32 >> 12) | (0x795e2619u32 << 20)) == 0x619795e2
        && (0x5fc5a3aau32 ^ 0x0981f6c1) == 0x5644556b
        && ((0x5644556bu32 >> 8) | (0x5644556bu32 << 24)) == 0x6b564455
        && (0x619795e2u32 ^ 0x4894a468) == 0x2903318a
        && ((0x2903318au32 >> 7) | (0x2903318au32 << 25)) == 0x14520663) by (bit_vector);
    let m = first_block();
    let s = sigma_s(5);
    let v0 = seq![
        0x35f13e7fu32, 0xdb872433, 0x964104e1, 0xf4a70de0, 0x895966a0, 0xfdf16a87, 0xb5e46fff, 0x273ce4c2,
        0x910d294a, 0x922c2087, 0xbb608aa1, 0x0e94c35f, 0xaa5e4b3c, 0x340a8431, 0x9ce1a119, 0x9cbac583,
    ];
    lemma_mixed(
        v0,
        (0, 4, 8, 12),
        3,
        13,
        (0xbf4aa522, 0x1514ee1e, 0xee1e1514, 0x7f2b3e5e, 0xf67258fe, 0x8fef6725),
        (0x4f3a0c54, 0xa1241940, 0x40a12419, 0xbfcc6277, 0x30230552, 0xa460460a),
    );
    let v1 = mix_s(v0, 0, 4, 8, 12, m[s[0]], m[s[1]]);
    lemma_mixed(
        v1,
        (1, 5, 9, 13),
        7,
        11,
        (0xd9788ec1, 0xed720af0, 0x0af0ed72, 0x9d1d0df9, 0x60ec677e, 0x77e60ec6),
        (0x515e9d92, 0x5bae70e0, 0xe05bae70, 0x7d78bc69, 0x0a9eb2af, 0x5e153d65),
    );
    let v2 = mix_s(v1, 1, 5, 9, 13, m[s[2]], m[s[3]]);
    lemma_mixed(
        v2,
        (2, 6, 10, 14),
        1,
        12,
        (0x4c2574e1, 0xd0c4d5f8, 0xd5f8d0c4, 0x91595b65, 0x24bd349a, 0x49a24bd3),
        (0x95c7c0c0, 0x403f1004, 0x04403f10, 0x95999a75, 0xdc3bd1a6, 0x4db877a3),
    );
    let v3 = mix_s(v2, 2, 6, 10, 14, m[s[4]], m[s[5]]);
    lemma_mixed(
        v3,
        (3, 7, 11, 15),
        9,
        4,
        (0x1be3f2ab, 0x87593728, 0x37288759, 0x45bd4ab8, 0x6281ae7a, 0xe7a6281a),
        (0x038a1ac9, 0x34a29d90, 0x9034a29d, 0xd5f1ed55, 0x3257c54f, 0x9e64af8a),
    );
    let v4 = mix_s(v3, 3, 7, 11, 15, m[s[6]], m[s[7]]);
    lemma_mixed(
        v4,
        (0, 5, 10, 15),
        5,
        14,
        (0xad4f49be, 0x3d7beb23, 0xeb233d7b, 0x80bcd7f0, 0xdea9ea95, 0xa95dea9e),
        (0x56ad346a, 0xbd8e0911, 0x11bd8e09, 0x927a65f9, 0x3b278f67, 0xce764f1e),
    );
    let v5 = mix_s(v4, 0, 5, 10, 15, m[s[8]], m[s[9]]);
    lemma_mixed(
        v5,
        (1, 6, 11, 12),
        8,
        6,
        (0x9f17153d, 0xdfb63124, 0x3124dfb6, 0x0716cd0b, 0x4aaebaa8, 0xaa84aaeb),
        (0x499bc02e, 0x78bf1f98, 0x9878bf1f, 0x9f8f8c2a, 0x350b26c1, 0x826a164d),
    );
    let v6 = mix_s(v5, 1, 6, 11, 12, m[s[10]], m[s[11]]);
    lemma_mixed(
        v6,
        (2, 7, 8, 13),
        16,
        15,
        (0x342c705a, 0xd477de2a, 0xde2ad477, 0x9df736ee, 0x03939964, 0x96403939),
        (0xca6ca9a2, 0x14467dd5, 0xd514467d, 0x730b7d6b, 0xe54b4452, 0xa5ca9688),
    );
    let v7 = mix_s(v6, 2, 7, 8, 13, m[s[12]], m[s[13]]);
    lemma_mixed(
        v7,
        (3, 4, 9, 14),
        2,
        10,
        (0xa7ea60d5, 0xa3aa5fc5, 0x5fc5a3aa, 0xdd3e6013, 0x795e2619, 0x619795e2),
        (0x0981f6c1, 0x5644556b, 0x6b564455, 0x4894a468, 0x2903318a, 0x14520663),
    );
    let v8 = mix_s(v7, 3, 4, 9, 14, m[s[14]], m[s[15]]);
    assert(v8 =~= seq![
        0x56ad346au32, 0x499bc02e, 0xca6ca9a2, 0x0981f6c1, 0x14520663, 0xce764f1e, 0x826a164d, 0xa5ca9688,
        0x730b7d6b, 0x4894a468, 0x927a65f9, 0x9f8f8c2a, 0x9878bf1f, 0xd514467d, 0x6b564455, 0x11bd8e09,
    ]);
    reveal(round_s);
}

proof fn lemma_first_block_round_6()
    ensures
        round_s(seq![
            0x56ad346au32, 0x499bc02e, 0xca6ca9a2, 0x0981f6c1, 0x14520663, 0xce764f1e, 0x826a164d, 0xa5ca9688,
            0x730b7d6b, 0x4894a468, 0x927a65f9, 0x9f8f8c2a, 0x9878bf1f, 0xd514467d, 0x6b564455, 0x11bd8e09,
        ], first_block(), 6) == seq![
            0x50b28590u32, 0xba5279ea, 0x57c6b9d4, 0x2b5e3eae, 0x921d9756, 0x718c9eb9, 0xdcf09a13, 0xf7e75402,
            0xa7e28fa8, 0xf6710f15, 0x5858d71c, 0x8da6a26f, 0x0dafc62c, 0x1c56fefd, 0xf60dba89, 0x819217f0,
        ],
{
    assert((0x9878bf1fu32 ^ 0x6aff3ada) == 0xf28785c5
        && ((0xf28785c5u32 >> 16) | (0xf28785c5u32 << 16)) == 0x85c5f287
        && (0x14520663u32 ^ 0xf8d16ff2) == 0xec836991
        && ((0xec836991u32 >> 12) | (0xec836991u32 << 20)) == 0x991ec836
        && (0x85c5f287u32 ^ 0x041e0316) == 0x81dbf191
        && ((0x81dbf191u32 >> 8) | (0x81dbf191u32 << 24)) == 0x9181dbf1
        && (0x991ec836u32 ^ 0x8a534be3) == 0x134d83d5
        && ((0x134d83d5u32 >> 7) | (0x134d83d5u32 << 25)) == 0xaa269b07
        && (0xd514467du32 ^ 0x18120f4e) == 0xcd064933
        && ((0xcd064933u32 >> 16) | (0xcd064933u32 << 16)) == 0x4933cd06
        && (0xce764f1eu32 ^ 0x91c8716e) == 0x5fbe3e70
        && ((0x5fbe3e70u32 >> 12) | (0x5fbe3e70u32 << 20)) == 0xe705fbe3
        && (0x4933cd06u32 ^ 0xff180b41) == 0xb62bc647
        && ((0xb62bc647u32 >> 8) | (0xb62bc647u32 << 24)) == 0x47b62bc6
        && (0xe705fbe3u32 ^ 0xd97e9d34) == 0x3e7b66d7
        && ((0x3e7b66d7u32 >> 7) | (0x3e7b66d7u32 << 25)) == 0xae7cf6cd
        && (0x6b564455u32 ^ 0x4cd6bffe) == 0x2780fbab
        && ((0x2780fbabu32 >> 16) | (0x2780fbabu32 << 16)) == 0xfbab2780
        && (0x826a164du32 ^ 0x8e258d79) == 0x0c4f9b34
        && ((0x0c4f9b34u32 >> 12) | (0x0c4f9b34u32 << 20)) == 0xb340c4f9
        && (0xfbab2780u32 ^ 0x00178505) == 0xfbbca285
        && ((0xfbbca285u32 >> 8) | (0xfbbca285u32 << 24)) == 0x85fbbca2
        && (0xb340c4f9u32 ^ 0x14214a1b) == 0xa7618ee2
        && ((0xa7618ee2u32 >> 7) | (0xa7618ee2u32 << 25)) == 0xc54ec31d
        && (0x11bd8e09u32 ^ 0xaf4c8d4e) == 0xbef10347
        && ((0xbef10347u32 >> 16) | (0xbef10347u32 << 16)) == 0x0347bef1
        && (0xa5ca9688u32 ^ 0xa2d74b1b) == 0x071ddd93
        && ((0x071ddd93u32 >> 12) | (0x071ddd93u32 << 20)) == 0xd93071dd
        && (0x0347bef1u32 ^ 0x887cff36) == 0x8b3b41c7
        && ((0x8b3b41c7u32 >> 8) | (0x8b3b41c7u32 << 24)) == 0xc78b3b41
        && (0xd93071ddu32 ^ 0x6a62865c) == 0xb352f781
        && ((0xb352f781u32 >> 7) | (0xb352f781u32 << 25)) == 0x0366a5ef
        && (0xc78b3b41u32 ^ 0xb29af9e4) == 0x7511c2a5
        && ((0x7511c2a5u32 >> 16) | (0x7511c2a5u32 << 16)) == 0xc2a57511
        && (0xae7cf6cdu32 ^ 0xd6c6bf2c) == 0x78ba49e1
        && ((0x78ba49e1u32 >> 12) | (0x78ba49e1u32 << 20)) == 0x9e178ba4
        && (0xc2a57511u32 ^ 0x50b28590) == 0x9217f081
        && ((0x9217f081u32 >> 8) | (0x9217f081u32 << 24)) == 0x819217f0
        && (0x9e178ba4u32 ^ 0x5858d71c) == 0xc64f5cb8
        && ((0xc64f5cb8u32 >> 7) | (0xc64f5cb8u32 << 25)) == 0x718c9eb9
        && (0x9181dbf1u32 ^ 0xc466ce65) == 0x55e71594
        && ((0x55e71594u32 >> 16) | (0x55e71594u32 << 16)) == 0x159455e7
        && (0xc54ec31du32 ^ 0x7ff6dc43) == 0xbab81f5e
        && ((0xbab81f5eu32 >> 12) | (0xbab81f5eu32 << 20)) == 0xf5ebab81
        && (0x159455e7u32 ^ 0xba5279ea) == 0xafc62c0d
        && ((0xafc62c0du32 >> 8) | (0xafc62c0du32 << 24)) == 0x0dafc62c
        && (0xf5ebab81u32 ^ 0x8da6a26f) == 0x784d09ee
        && ((0x784d09eeu32 >> 7) | (0x784d09eeu32 << 25)) == 0xdcf09a13
        && (0x47b62bc6u32 ^ 0x037e2afe) == 0x44c80138
        && ((0x44c80138u32 >> 16) | (0x44c80138u32 << 16)) == 0x013844c8
        && (0x0366a5efu32 ^ 0x8b8b90ab) == 0x88ed3544
        && ((0x88ed3544u32 >> 12) | (0x88ed3544u32 << 20)) == 0x54488ed3
        && (0x013844c8u32 ^ 0x57c6b9d4) == 0x56fefd1c
        && ((0x56fefd1cu32 >> 8) | (0x56fefd1cu32 << 24)) == 0x1c56fefd
        && (0x54488ed3u32 ^ 0xa7e28fa8) == 0xf3aa017b
        && ((0xf3aa017bu32 >> 7) | (0xf3aa017bu32 << 25)) == 0xf7e75402
        && (0x85fbbca2u32 ^ 0x32a39a46) == 0xb75826e4
        && ((0xb75826e4u32 >> 16) | (0xb75826e4u32 << 16)) == 0x26e4b758
        && (0xaa269b07u32 ^ 0x0063548c) == 0xaa45cf8b
        && ((0xaa45cf8bu32 >> 12) | (0xaa45cf8bu32 << 20)) == 0xf8baa45c
        && (0x26e4b758u32 ^ 0x2b5e3eae) == 0x0dba89f6
        && ((0x0dba89f6u32 >> 8) | (0x0dba89f6u32 << 24)) == 0xf60dba89
        && (0xf8baa45cu32 ^ 0xf6710f15) == 0x0ecbab49
        && ((0x0ecbab49u32 >> 7) | (0x0ecbab49u32 << 25)) == 0x921d9756) by (bit_vector);
    let m = first_block();
    let s = sigma_s(6);
    let v0 = seq![
        0x56ad346au32, 0x499bc02e, 0xca6ca9a2, 0x0981f6c1, 0x14520663, 0xce764f1e, 0x826a164d, 0xa5ca9688,
        0x730b7d6b, 0x4894a468, 0x927a65f9, 0x9f8f8c2a, 0x9878bf1f, 0xd514467d, 0x6b564455, 0x11bd8e09,
    ];
    lemma_mixed(
        v0,
        (0, 4, 8, 12),
        13,
        6,
        (0x6aff3ada, 0xf28785c5, 0x85c5f287, 0xf8d16ff2, 0xec836991, 0x991ec836),
        (0x041e0316, 0x81dbf191, 0x9181dbf1, 0x8a534be3, 0x134d83d5, 0xaa269b07),
    );
    let v1 = mix_s(v0, 0, 4, 8, 12, m[s[0]], m[s[1]]);
    lemma_mixed(
        v1,
        (1, 5, 9, 13),
        2,
        16,
        (0x18120f4e, 0xcd064933, 0x4933cd06, 0x91c8716e, 0x5fbe3e70, 0xe705fbe3),
        (0xff180b41, 0xb62bc647, 0x47b62bc6, 0xd97e9d34, 0x3e7b66d7, 0xae7cf6cd),
    );
    let v2 = mix_s(v1, 1, 5, 9, 13, m[s[2]], m[s[3]]);
    lemma_mixed(
        v2,
        (2, 6, 10, 14),
        15,
        14,
        (0x4cd6bffe, 0x2780fbab, 0xfbab2780, 0x8e258d79, 0x0c4f9b34, 0xb340c4f9),
        (0x00178505, 0xfbbca285, 0x85fbbca2, 0x14214a1b, 0xa7618ee2, 0xc54ec31d),
    );
    let v3 = mix_s(v2, 2, 6, 10, 14, m[s[4]], m[s[5]]);
    lemma_mixed(
        v3,
        (3, 7, 11, 15),
        5,
        11,
        (0xaf4c8d4e, 0xbef10347, 0x0347bef1, 0xa2d74b1b, 0x071ddd93, 0xd93071dd),
        (0x887cff36, 0x8b3b41c7, 0xc78b3b41, 0x6a62865c, 0xb352f781, 0x0366a5ef),
    );
    let v4 = mix_s(v3, 3, 7, 11, 15, m[s[6]], m[s[7]]);
    lemma_mixed(
        v4,
        (0, 5, 10, 15),
        1,
        8,
        (0xb29af9e4, 0x7511c2a5, 0xc2a57511, 0xd6c6bf2c, 0x78ba49e1, 0x9e178ba4),
        (0x50b28590, 0x9217f081, 0x819217f0, 0x5858d71c, 0xc64f5cb8, 0x718c9eb9),
    );
    let v5 = mix_s(v4, 0, 5, 10, 15, m[s[8]], m[s[9]]);
    lemma_mixed(
        v5,
        (1, 6, 11, 12),
        7,
        4,
        (0xc466ce65, 0x55e71594, 0x159455e7, 0x7ff6dc43, 0xbab81f5e, 0xf5ebab81),
        (0xba5279ea, 0xafc62c0d, 0x0dafc62c, 0x8da6a26f, 0x784d09ee, 0xdcf09a13),
    );
    let v6 = mix_s(v5, 1, 6, 11, 12, m[s[10]], m[s[11]]);
    lemma_mixed(
        v6,
        (2, 7, 8, 13),
        10,
        3,
        (0x037e2afe, 0x44c80138, 0x013844c8, 0x8b8b90ab, 0x88ed3544, 0x54488ed3),
        (0x57c6b9d4, 0x56fefd1c, 0x1c56fefd, 0xa7e28fa8, 0xf3aa017b, 0xf7e75402),
    );
    let v7 = mix_s(v6, 2, 7, 8, 13, m[s[12]], m[s[13]]);
    lemma_mixed(
        v7,
        (3, 4, 9, 14),
        9,
        12,
        (0x32a39a46, 0xb75826e4, 0x26e4b758, 0x0063548c, 0xaa45cf8b, 0xf8baa45c),
        (0x2b5e3eae, 0x0dba89f6, 0xf60dba89, 0xf6710f15, 0x0ecbab49, 0x921d9756),
    );
    let v8 = mix_s(v7, 3, 4, 9, 14, m[s[14]], m[s[15]]);
    assert(v8 =~= seq![
        0x50b28590u32, 0xba5279ea, 0x57c6b9d4, 0x2b5e3eae, 0x921d9756, 0x718c9eb9, 0xdcf09a13, 0xf7e75402,
        0xa7e28fa8, 0xf6710f15, 0x5858d71c, 0x8da6a26f, 0x0dafc62c, 0x1c56fefd, 0xf60dba89, 0x819217f0,
    ]);
    reveal(round_s);
}

proof fn lemma_first_block_round_7()
    ensures
        round_s(seq![
            0x50b28590u32, 0xba5279ea, 0x57c6b9d4, 0x2b5e3eae, 0x921d9756, 0x718c9eb9, 0xdcf09a13, 0xf7e75402,
            0xa7e28fa8, 0xf6710f15, 0x5858d71c, 0x8da6a26f, 0x0dafc62c, 0x1c56fefd, 0xf60dba89, 0x819217f0,
        ], first_block(), 7) == seq![
            0x92eba3d2u32, 0x42590664, 0x9a6dd33f, 0x89b1964f, 0x0133d8dd, 0x0ef3514f, 0xcc30db35, 0x77fe27eb,
            0x64eef9fa, 0xd61adddd, 0xe7ff36df, 0xc7b731c9, 0xa920a175, 0x075340d3, 0x6d07b243, 0xf457d3ff,
        ],
{
    assert((0x0dafc62cu32 ^ 0xe2d01cf4) == 0xef7fdad8
        && ((0xef7fdad8u32 >> 16) | (0xef7fdad8u32 << 16)) == 0xdad8ef7f
        && (0x921d9756u32 ^ 0x82bb7f27) == 0x10a6e871
        && ((0x10a6e871u32 >> 12) | (0x10a6e871u32 << 20)) == 0x87110a6e
        && (0xdad8ef7fu32 ^ 0x69e1276e) == 0xb339c811
        && ((0xb339c811u32 >> 8) | (0xb339c811u32 << 24)) == 0x11b339c8
        && (0x87110a6eu32 ^ 0x946eb8ef) == 0x137fb281
        && ((0x137fb281u32 >> 7) | (0x137fb281u32 << 25)) == 0x0226ff65
        && (0x1c56fefdu32 ^ 0x2bdf18ab) == 0x3789e656
        && ((0x3789e656u32 >> 16) | (0x3789e656u32 << 16)) == 0xe6563789
        && (0x718c9eb9u32 ^ 0xdcc7469e) == 0xad4bd827
        && ((0xad4bd827u32 >> 12) | (0xad4bd827u32 << 20)) == 0x827ad4bd
        && (0xe6563789u32 ^ 0xae59ed77) == 0x480fdafe
        && ((0x480fdafeu32 >> 8) | (0x480fdafeu32 << 24)) == 0xfe480fda
        && (0x827ad4bdu32 ^ 0xdb0f5678) == 0x597582c5
        && ((0x597582c5u32 >> 7) | (0x597582c5u32 << 25)) == 0x8ab2eb05
        && (0xf60dba89u32 ^ 0x34b753f4) == 0xc2bae97d
        && ((0xc2bae97du32 >> 16) | (0xc2bae97du32 << 16)) == 0xe97dc2ba
        && (0xdcf09a13u32 ^ 0x41d699d6) == 0x9d2603c5
        && ((0x9d2603c5u32 >> 12) | (0x9d2603c5u32 << 20)) == 0x3c59d260
        && (0xe97dc2bau32 ^ 0x71112656) == 0x986ce4ec
        && ((0x986ce4ecu32 >> 8) | (0x986ce4ecu32 << 24)) == 0xec986ce4
        && (0x3c59d260u32 ^ 0x2e6f06ba) == 0x1236d4da
        && ((0x1236d4dau32 >> 7) | (0x1236d4dau32 << 25)) == 0xb4246da9
        && (0x819217f0u32 ^ 0x234592b4) == 0xa2d78544
        && ((0xa2d78544u32 >> 16) | (0xa2d78544u32 << 16)) == 0x8544a2d7
        && (0xf7e75402u32 ^ 0x12eb4546) == 0xe50c1144
        && ((0xe50c1144u32 >> 12) | (0xe50c1144u32 << 20)) == 0x144e50c1
        && (0x8544a2d7u32 ^ 0x3793e37f) == 0xb2d741a8
        && ((0xb2d741a8u32 >> 8) | (0xb2d741a8u32 << 24)) == 0xa8b2d741
        && (0x144e50c1u32 ^ 0xbb9e1c87) == 0xafd04c46
        && ((0xafd04c46u32 >> 7) | (0xafd04c46u32 << 25)) == 0x8d5fa098
        && (0xa8b2d741u32 ^ 0xf4941279) == 0x5c26c538
        && ((0x5c26c538u32 >> 16) | (0x5c26c538u32 << 16)) == 0xc5385c26
        && (0x8ab2eb05u32 ^ 0xf3a762e0) == 0x791589e5
        && ((0x791589e5u32 >> 12) | (0x791589e5u32 << 20)) == 0x9e579158
        && (0xc5385c26u32 ^ 0x92eba3d2) == 0x57d3fff4
        && ((0x57d3fff4u32 >> 8) | (0x57d3fff4u32 << 24)) == 0xf457d3ff
        && (0x9e579158u32 ^ 0xe7ff36df) == 0x79a8a787
        && ((0x79a8a787u32 >> 7) | (0x79a8a787u32 << 25)) == 0x0ef3514f
        && (0x11b339c8u32 ^ 0x627e5b30) == 0x73cd62f8
        && ((0x73cd62f8u32 >> 16) | (0x73cd62f8u32 << 16)) == 0x62f873cd
        && (0xb4246da9u32 ^ 0x1e969054) == 0xaab2fdfd
        && ((0xaab2fdfdu32 >> 12) | (0xaab2fdfdu32 << 20)) == 0xdfdaab2f
        && (0x62f873cdu32 ^ 0x42590664) == 0x20a175a9
        && ((0x20a175a9u32 >> 8) | (0x20a175a9u32 << 24)) == 0xa920a175
        && (0xdfdaab2fu32 ^ 0xc7b731c9) == 0x186d9ae6
        && ((0x186d9ae6u32 >> 7) | (0x186d9ae6u32 << 25)) == 0xcc30db35
        && (0xfe480fdau32 ^ 0xfe70c6f7) == 0x0038c92d
        && ((0x0038c92du32 >> 16) | (0x0038c92du32 << 16)) == 0xc92d0038
        && (0x8d5fa098u32 ^ 0x5d9bb927) == 0xd0c419bf
        && ((0xd0c419bfu32 >> 12) | (0xd0c419bfu32 << 20)) == 0x9bfd0c41
        && (0xc92d0038u32 ^ 0x9a6dd33f) == 0x5340d307
        && ((0x5340d307u32 >> 8) | (0x5340d307u32 << 24)) == 0x075340d3
        && (0x9bfd0c41u32 ^ 0x64eef9fa) == 0xff13f5bb
        && ((0xff13f5bbu32 >> 7) | (0xff13f5bbu32 << 25)) == 0x77fe27eb
        && (0xec986ce4u32 ^ 0x39bae2e7) == 0xd5228e03
        && ((0xd5228e03u32 >> 16) | (0xd5228e03u32 << 16)) == 0x8e03d522
        && (0x0226ff65u32 ^ 0x69132b9a) == 0x6b35d4ff
        && ((0x6b35d4ffu32 >> 12) | (0x6b35d4ffu32 << 20)) == 0x4ff6b35d
        && (0x8e03d522u32 ^ 0x89b1964f) == 0x07b2436d
        && ((0x07b2436du32 >> 8) | (0x07b2436du32 << 24)) == 0x6d07b243
        && (0x4ff6b35du32 ^ 0xd61adddd) == 0x99ec6e80
        && ((0x99ec6e80u32 >> 7) | (0x99ec6e80u32 << 25)) == 0x0133d8dd) by (bit_vector);
    let m = first_block();
    let s = sigma_s(7);
    let v0 = seq![
        0x50b28590u32, 0xba5279ea, 0x57c6b9d4, 0x2b5e3eae, 0x921d9756, 0x718c9eb9, 0xdcf09a13, 0xf7e75402,
        0xa7e28fa8, 0xf6710f15, 0x5858d71c, 0x8da6a26f, 0x0dafc62c, 0x1c56fefd, 0xf60dba89, 0x819217f0,
    ];
    lemma_mixed(
        v0,
        (0, 4, 8, 12),
        14,
        12,
        (0xe2d01cf4, 0xef7fdad8, 0xdad8ef7f, 0x82bb7f27, 0x10a6e871, 0x87110a6e),
        (0x69e1276e, 0xb339c811, 0x11b339c8, 0x946eb8ef, 0x137fb281, 0x0226ff65),
    );
    let v1 = mix_s(v0, 0, 4, 8, 12, m[s[0]], m[s[1]]);
    lemma_mixed(
        v1,
        (1, 5, 9, 13),
        8,
        15,
        (0x2bdf18ab, 0x3789e656, 0xe6563789, 0xdcc7469e, 0xad4bd827, 0x827ad4bd),
        (0xae59ed77, 0x480fdafe, 0xfe480fda, 0xdb0f5678, 0x597582c5, 0x8ab2eb05),
    );
    let v2 = mix_s(v1, 1, 5, 9, 13, m[s[2]], m[s[3]]);
    lemma_mixed(
        v2,
        (2, 6, 10, 14),
        13,
        2,
        (0x34b753f4, 0xc2bae97d, 0xe97dc2ba, 0x41d699d6, 0x9d2603c5, 0x3c59d260),
        (0x71112656, 0x986ce4ec, 0xec986ce4, 0x2e6f06ba, 0x1236d4da, 0xb4246da9),
    );
    let v3 = mix_s(v2, 2, 6, 10, 14, m[s[4]], m[s[5]]);
    lemma_mixed(
        v3,
        (3, 7, 11, 15),
        4,
        10,
        (0x234592b4, 0xa2d78544, 0x8544a2d7, 0x12eb4546, 0xe50c1144, 0x144e50c1),
        (0x3793e37f, 0xb2d741a8, 0xa8b2d741, 0xbb9e1c87, 0xafd04c46, 0x8d5fa098),
    );
    let v4 = mix_s(v3, 3, 7, 11, 15, m[s[6]], m[s[7]]);
    lemma_mixed(
        v4,
        (0, 5, 10, 15),
        6,
        1,
        (0xf4941279, 0x5c26c538, 0xc5385c26, 0xf3a762e0, 0x791589e5, 0x9e579158),
        (0x92eba3d2, 0x57d3fff4, 0xf457d3ff, 0xe7ff36df, 0x79a8a787, 0x0ef3514f),
    );
    let v5 = mix_s(v4, 0, 5, 10, 15, m[s[8]], m[s[9]]);
    lemma_mixed(
        v5,
        (1, 6, 11, 12),
        16,
        5,
        (0x627e5b30, 0x73cd62f8, 0x62f873cd, 0x1e969054, 0xaab2fdfd, 0xdfdaab2f),
        (0x42590664, 0x20a175a9, 0xa920a175, 0xc7b731c9, 0x186d9ae6, 0xcc30db35),
    );
    let v6 = mix_s(v5, 1, 6, 11, 12, m[s[10]], m[s[11]]);
    lemma_mixed(
        v6,
        (2, 7, 8, 13),
        9,
        7,
        (0xfe70c6f7, 0x0038c92d, 0xc92d0038, 0x5d9bb927, 0xd0c419bf, 0x9bfd0c41),
        (0x9a6dd33f, 0x5340d307, 0x075340d3, 0x64eef9fa, 0xff13f5bb, 0x77fe27eb),
    );
    let v7 = mix_s(v6, 2, 7, 8, 13, m[s[12]], m[s[13]]);
    lemma_mixed(
        v7,
        (3, 4, 9, 14),
        3,
        11,
        (0x39bae2e7, 0xd5228e03, 0x8e03d522, 0x69132b9a, 0x6b35d4ff, 0x4ff6b35d),
        (0x89b1964f, 0x07b2436d, 0x6d07b243, 0xd61adddd, 0x99ec6e80, 0x0133d8dd),
    );
    let v8 = mix_s(v7, 3, 4, 9, 14, m[s[14]], m[s[15]]);
    assert(v8 =~= seq![
        0x92eba3d2u32, 0x42590664, 0x9a6dd33f, 0x89b1964f, 0x0133d8dd, 0x0ef3514f, 0xcc30db35, 0x77fe27eb,
        0x64eef9fa, 0xd61adddd, 0xe7ff36df, 0xc7b731c9, 0xa920a175, 0x075340d3, 0x6d07b243, 0xf457d3ff,
    ]);
    reveal(round_s);
}

proof fn lemma_first_block_round_8()
    ensures
        round_s(seq![
            0x92eba3d2u32, 0x42590664, 0x9a6dd33f, 0x89b1964f, 0x0133d8dd, 0x0ef3514f, 0xcc30db35, 0x77fe27eb,
            0x64eef9fa, 0xd61adddd, 0xe7ff36df, 0xc7b731c9, 0xa920a175, 0x075340d3, 0x6d07b243, 0xf457d3ff,
        ], first_block(), 8) == seq![
            0x97abb416u32, 0xe54554f1, 0x173ac95a, 0xd4e73f61, 0xd463f86e, 0x6881fb12, 0x582904a5, 0x0976e87b,
            0x896d35fd, 0x272efa67, 0x3179220a, 0x4ddd8682, 0x5bc57704, 0x104c25f1, 0x921e9fb5, 0x58086d0e,
        ],
{
    assert((0xa920a175u32 ^ 0x941f7cb6) == 0x3d3fddc3
        && ((0x3d3fddc3u32 >> 16) | (0x3d3fddc3u32 << 16)) == 0xddc33d3f
        && (0x0133d8ddu32 ^ 0x42b23739) == 0x4381efe4
        && ((0x4381efe4u32 >> 12) | (0x4381efe4u32 << 20)) == 0xfe44381e
        && (0xddc33d3fu32 ^ 0x9263b4e4) == 0x4fa089db
        && ((0x4fa089dbu32 >> 8) | (0x4fa089dbu32 << 24)) == 0xdb4fa089
        && (0xfe44381eu32 ^ 0x1e01d7c2) == 0xe045efdc
        && ((0xe045efdcu32 >> 7) | (0xe045efdcu32 << 25)) == 0xb9c08bdf
        && (0x075340d3u32 ^ 0x514c57c2) == 0x561f1711
        && ((0x561f1711u32 >> 16) | (0x561f1711u32 << 16)) == 0x1711561f
        && (0x0ef3514fu32 ^ 0xed2c33fc) == 0xe3df62b3
        && ((0xe3df62b3u32 >> 12) | (0xe3df62b3u32 << 20)) == 0x2b3e3df6
        && (0x1711561fu32 ^ 0x7c8a95c2) == 0x6b9bc3dd
        && ((0x6b9bc3ddu32 >> 8) | (0x6b9bc3ddu32 << 24)) == 0xdd6b9bc3
        && (0x2b3e3df6u32 ^ 0xca97cfbf) == 0xe1a9f249
        && ((0xe1a9f249u32 >> 7) | (0xe1a9f249u32 << 25)) == 0x93c353e4
        && (0x6d07b243u32 ^ 0x669eae80) == 0x0b991cc3
        && ((0x0b991cc3u32 >> 16) | (0x0b991cc3u32 << 16)) == 0x1cc30b99
        && (0xcc30db35u32 ^ 0x04c24278) == 0xc8f2994d
        && ((0xc8f2994du32 >> 12) | (0xc8f2994du32 << 20)) == 0x94dc8f29
        && (0x1cc30b99u32 ^ 0xfb7b3dad) == 0xe7b83634
        && ((0xe7b83634u32 >> 8) | (0xe7b83634u32 << 24)) == 0x34e7b836
        && (0x94dc8f29u32 ^ 0x39a9faae) == 0xad757587
        && ((0xad757587u32 >> 7) | (0xad757587u32 << 25)) == 0x0f5aeaeb
        && (0xf457d3ffu32 ^ 0x01afbe3b) == 0xf5f86dc4
        && ((0xf5f86dc4u32 >> 16) | (0xf5f86dc4u32 << 16)) == 0x6dc4f5f8
        && (0x77fe27ebu32 ^ 0x357c27c1) == 0x4282002a
        && ((0x4282002au32 >> 12) | (0x4282002au32 << 20)) == 0x02a42820
        && (0x6dc4f5f8u32 ^ 0x0453e664) == 0x6997139c
        && ((0x6997139cu32 >> 8) | (0x6997139cu32 << 24)) == 0x9c699713
        && (0x02a42820u32 ^ 0xd1e5bed4) == 0xd34196f4
        && ((0xd34196f4u32 >> 7) | (0xd34196f4u32 << 25)) == 0xe9a6832d
        && (0x9c699713u32 ^ 0x262708d5) == 0xba4e9fc6
        && ((0xba4e9fc6u32 >> 16) | (0xba4e9fc6u32 << 16)) == 0x9fc6ba4e
        && (0x93c353e4u32 ^ 0xd970b4fc) == 0x4ab3e718
        && ((0x4ab3e718u32 >> 12) | (0x4ab3e718u32 << 20)) == 0x7184ab3e
        && (0x9fc6ba4eu32 ^ 0x97abb416) == 0x086d0e58
        && ((0x086d0e58u32 >> 8) | (0x086d0e58u32 << 24)) == 0x58086d0e
        && (0x7184ab3eu32 ^ 0x3179220a) == 0x40fd8934
        && ((0x40fd8934u32 >> 7) | (0x40fd8934u32 << 25)) == 0x6881fb12
        && (0xdb4fa089u32 ^ 0x8be580bb) == 0x50aa2032
        && ((0x50aa2032u32 >> 16) | (0x50aa2032u32 << 16)) == 0x203250aa
        && (0x0f5aeaebu32 ^ 0xf2180f7e) == 0xfd42e595
        && ((0xfd42e595u32 >> 12) | (0xfd42e595u32 << 20)) == 0x595fd42e
        && (0x203250aau32 ^ 0xe54554f1) == 0xc577045b
        && ((0xc577045bu32 >> 8) | (0xc577045bu32 << 24)) == 0x5bc57704
        && (0x595fd42eu32 ^ 0x4ddd8682) == 0x148252ac
        && ((0x148252acu32 >> 7) | (0x148252acu32 << 25)) == 0x582904a5
        && (0xdd6b9bc3u32 ^ 0xe521c0dc) == 0x384a5b1f
        && ((0x384a5b1fu32 >> 16) | (0x384a5b1fu32 << 16)) == 0x5b1f384a
        && (0xe9a6832du32 ^ 0x7921100c) == 0x90879321
        && ((0x90879321u32 >> 12) | (0x90879321u32 << 20)) == 0x32190879
        && (0x5b1f384au32 ^ 0x173ac95a) == 0x4c25f110
        && ((0x4c25f110u32 >> 8) | (0x4c25f110u32 << 24)) == 0x104c25f1
        && (0x32190879u32 ^ 0x896d35fd) == 0xbb743d84
        && ((0xbb743d84u32 >> 7) | (0xbb743d84u32 << 25)) == 0x0976e87b
        && (0x34e7b836u32 ^ 0xbe14724e) == 0x8af3ca78
        && ((0x8af3ca78u32 >> 16) | (0x8af3ca78u32 << 16)) == 0xca788af3
        && (0xb9c08bdfu32 ^ 0x95105ab2) == 0x2cd0d16d
        && ((0x2cd0d16du32 >> 12) | (0x2cd0d16du32 << 20)) == 0x16d2cd0d
        && (0xca788af3u32 ^ 0xd4e73f61) == 0x1e9fb592
        && ((0x1e9fb592u32 >> 8) | (0x1e9fb592u32 << 24)) == 0x921e9fb5
        && (0x16d2cd0du32 ^ 0x272efa67) == 0x31fc376a
        && ((0x31fc376au32 >> 7) | (0x31fc376au32 << 25)) == 0xd463f86e) by (bit_vector);
    let m = first_block();
    let s = sigma_s(8);
    let v0 = seq![
        0x92eba3d2u32, 0x42590664, 0x9a6dd33f, 0x89b1964f, 0x0133d8dd, 0x0ef3514f, 0xcc30db35, 0x77fe27eb,
        0x64eef9fa, 0xd61adddd, 0xe7ff36df, 0xc7b731c9, 0xa920a175, 0x075340d3, 0x6d07b243, 0xf457d3ff,
    ];
    lemma_mixed(
        v0,
        (0, 4, 8, 12),
        7,
        16,
        (0x941f7cb6, 0x3d3fddc3, 0xddc33d3f, 0x42b23739, 0x4381efe4, 0xfe44381e),
        (0x9263b4e4, 0x4fa089db, 0xdb4fa089, 0x1e01d7c2, 0xe045efdc, 0xb9c08bdf),
    );
    let v1 = mix_s(v0, 0, 4, 8, 12, m[s[0]], m[s[1]]);
    lemma_mixed(
        v1,
        (1, 5, 9, 13),
        15,
        10,
        (0x514c57c2, 0x561f1711, 0x1711561f, 0xed2c33fc, 0xe3df62b3, 0x2b3e3df6),
        (0x7c8a95c2, 0x6b9bc3dd, 0xdd6b9bc3, 0xca97cfbf, 0xe1a9f249, 0x93c353e4),
    );
    let v2 = mix_s(v1, 1, 5, 9, 13, m[s[2]], m[s[3]]);
    lemma_mixed(
        v2,
        (2, 6, 10, 14),
        12,
        4,
        (0x669eae80, 0x0b991cc3, 0x1cc30b99, 0x04c24278, 0xc8f2994d, 0x94dc8f29),
        (0xfb7b3dad, 0xe7b83634, 0x34e7b836, 0x39a9faae, 0xad757587, 0x0f5aeaeb),
    );
    let v3 = mix_s(v2, 2, 6, 10, 14, m[s[4]], m[s[5]]);
    lemma_mixed(
        v3,
        (3, 7, 11, 15),
        1,
        9,
        (0x01afbe3b, 0xf5f86dc4, 0x6dc4f5f8, 0x357c27c1, 0x4282002a, 0x02a42820),
        (0x0453e664, 0x6997139c, 0x9c699713, 0xd1e5bed4, 0xd34196f4, 0xe9a6832d),
    );
    let v4 = mix_s(v3, 3, 7, 11, 15, m[s[6]], m[s[7]]);
    lemma_mixed(
        v4,
        (0, 5, 10, 15),
        13,
        3,
        (0x262708d5, 0xba4e9fc6, 0x9fc6ba4e, 0xd970b4fc, 0x4ab3e718, 0x7184ab3e),
        (0x97abb416, 0x086d0e58, 0x58086d0e, 0x3179220a, 0x40fd8934, 0x6881fb12),
    );
    let v5 = mix_s(v4, 0, 5, 10, 15, m[s[8]], m[s[9]]);
    lemma_mixed(
        v5,
        (1, 6, 11, 12),
        14,
        8,
        (0x8be580bb, 0x50aa2032, 0x203250aa, 0xf2180f7e, 0xfd42e595, 0x595fd42e),
        (0xe54554f1, 0xc577045b, 0x5bc57704, 0x4ddd8682, 0x148252ac, 0x582904a5),
    );
    let v6 = mix_s(v5, 1, 6, 11, 12, m[s[10]], m[s[11]]);
    lemma_mixed(
        v6,
        (2, 7, 8, 13),
        2,
        5,
        (0xe521c0dc, 0x384a5b1f, 0x5b1f384a, 0x7921100c, 0x90879321, 0x32190879),
        (0x173ac95a, 0x4c25f110, 0x104c25f1, 0x896d35fd, 0xbb743d84, 0x0976e87b),
    );
    let v7 = mix_s(v6, 2, 7, 8, 13, m[s[12]], m[s[13]]);
    lemma_mixed(
        v7,
        (3, 4, 9, 14),
        11,
        6,
        (0xbe14724e, 0x8af3ca78, 0xca788af3, 0x95105ab2, 0x2cd0d16d, 0x16d2cd0d),
        (0xd4e73f61, 0x1e9fb592, 0x921e9fb5, 0x272efa67, 0x31fc376a, 0xd463f86e),
    );
    let v8 = mix_s(v7, 3, 4, 9, 14, m[s[14]], m[s[15]]);
    assert(v8 =~= seq![
        0x97abb416u32, 0xe54554f1, 0x173ac95a, 0xd4e73f61, 0xd463f86e, 0x6881fb12, 0x582904a5, 0x0976e87b,
        0x896d35fd, 0x272efa67, 0x3179220a, 0x4ddd8682, 0x5bc57704, 0x104c25f1, 0x921e9fb5, 0x58086d0e,
    ]);
    reveal(round_s);
}

proof fn lemma_first_block_round_9()
    ensures
        round_s(seq![
            0x97abb416u32, 0xe54554f1, 0x173ac95a, 0xd4e73f61, 0xd463f86e, 0x6881fb12, 0x582904a5, 0x0976e87b,
            0x896d35fd, 0x272efa67, 0x3179220a, 0x4ddd8682, 0x5bc57704, 0x104c25f1, 0x921e9fb5, 0x58086d0e,
        ], first_block(), 9) == seq![
            0xaa04b2efu32, 0x170bb346, 0x3a3c80a0, 0x005e3fa8, 0x81e54fbe, 0xdd37118f, 0x94194ebb, 0x30fcc8a9,
            0x92d8fb06, 0x06ea025a, 0xe77a1738, 0x49a2f996, 0x5d3851e0, 0xb1c13ead, 0xc8415011, 0x9c0fcabb,
        ],
{
    assert((0x5bc57704u32 ^ 0x6c0fac8f) == 0x37cadb8b
        && ((0x37cadb8bu32 >> 16) | (0x37cadb8bu32 << 16)) == 0xdb8b37ca
        && (0xd463f86eu32 ^ 0x64f86dc7) == 0xb09b95a9
        && ((0xb09b95a9u32 >> 12) | (0xb09b95a9u32 << 20)) == 0x5a9b09b9
        && (0xdb8b37cau32 ^ 0xc6aab64b) == 0x1d218181
        && ((0x1d218181u32 >> 8) | (0x1d218181u32 << 24)) == 0x811d2181
        && (0x5a9b09b9u32 ^ 0xe6158f48) == 0xbc8e86f1
        && ((0xbc8e86f1u32 >> 7) | (0xbc8e86f1u32 << 25)) == 0xe3791d0d
        && (0x104c25f1u32 ^ 0x4dc7500c) == 0x5d8b75fd
        && ((0x5d8b75fdu32 >> 16) | (0x5d8b75fdu32 << 16)) == 0x75fd5d8b
        && (0x6881fb12u32 ^ 0x9d2c57f2) == 0xf5adace0
        && ((0xf5adace0u32 >> 12) | (0xf5adace0u32 << 20)) == 0xce0f5ada
        && (0x75fd5d8bu32 ^ 0x1bd6aaeb) == 0x6e2bf760
        && ((0x6e2bf760u32 >> 8) | (0x6e2bf760u32 << 24)) == 0x606e2bf7
        && (0xce0f5adau32 ^ 0xfd9a83e9) == 0x3395d933
        && ((0x3395d933u32 >> 7) | (0x3395d933u32 << 25)) == 0x66672bb2
        && (0x921e9fb5u32 ^ 0x6f63ce07) == 0xfd7d51b2
        && ((0xfd7d51b2u32 >> 16) | (0xfd7d51b2u32 << 16)) == 0x51b2fd7d
        && (0x582904a5u32 ^ 0x832c1f87) == 0xdb051b22
        && ((0xdb051b22u32 >> 12) | (0xdb051b22u32 << 20)) == 0xb22db051
        && (0x51b2fd7du32 ^ 0x21917e5f) == 0x70238322
        && ((0x70238322u32 >> 8) | (0x70238322u32 << 24)) == 0x22702383
        && (0xb22db051u32 ^ 0xa59c430a) == 0x17b1f35b
        && ((0x17b1f35bu32 >> 7) | (0x17b1f35bu32 << 25)) == 0xb62f63e6
        && (0x58086d0eu32 ^ 0xde5e27de) == 0x86564ad0
        && ((0x86564ad0u32 >> 16) | (0x86564ad0u32 << 16)) == 0x4ad08656
        && (0x0976e87bu32 ^ 0x98ae0cd8) == 0x91d8e4a3
        && ((0x91d8e4a3u32 >> 12) | (0x91d8e4a3u32 << 20)) == 0x4a391d8e
        && (0x4ad08656u32 ^ 0x28974572) == 0x6247c324
        && ((0x6247c324u32 >> 8) | (0x6247c324u32 << 24)) == 0x246247c3
        && (0x4a391d8eu32 ^ 0xbd10549b) == 0xf7294915
        && ((0xf7294915u32 >> 7) | (0xf7294915u32 << 25)) == 0x2bee5292
        && (0x246247c3u32 ^ 0x2d11e20d) == 0x0973a5ce
        && ((0x0973a5ceu32 >> 16) | (0x0973a5ceu32 << 16)) == 0xa5ce0973
        && (0x66672bb2u32 ^ 0x4b6a4c7d) == 0x2d0d67cf
        && ((0x2d0d67cfu32 >> 12) | (0x2d0d67cfu32 << 20)) == 0x7cf2d0d6
        && (0xa5ce0973u32 ^ 0xaa04b2ef) == 0x0fcabb9c
        && ((0x0fcabb9cu32 >> 8) | (0x0fcabb9cu32 << 24)) == 0x9c0fcabb
        && (0x7cf2d0d6u32 ^ 0xe77a1738) == 0x9b88c7ee
        && ((0x9b88c7eeu32 >> 7) | (0x9b88c7eeu32 << 25)) == 0xdd37118f
        && (0x811d2181u32 ^ 0xd2060edb) == 0x531b2f5a
        && ((0x531b2f5au32 >> 16) | (0x531b2f5au32 << 16)) == 0x2f5a531b
        && (0xb62f63e6u32 ^ 0xec6aa7b6) == 0x5a45c450
        && ((0x5a45c450u32 >> 12) | (0x5a45c450u32 << 20)) == 0x4505a45c
        && (0x2f5a531bu32 ^ 0x170bb346) == 0x3851e05d
        && ((0x3851e05du32 >> 8) | (0x3851e05du32 << 24)) == 0x5d3851e0
        && (0x4505a45cu32 ^ 0x49a2f996) == 0x0ca75dca
        && ((0x0ca75dcau32 >> 7) | (0x0ca75dcau32 << 25)) == 0x94194ebb
        && (0x606e2bf7u32 ^ 0x4d7fd0f5) == 0x2d11fb02
        && ((0x2d11fb02u32 >> 16) | (0x2d11fb02u32 << 16)) == 0xfb022d11
        && (0x2bee5292u32 ^ 0xe117bc59) == 0xcaf9eecb
        && ((0xcaf9eecbu32 >> 12) | (0xcaf9eecbu32 << 20)) == 0xecbcaf9e
        && (0xfb022d11u32 ^ 0x3a3c80a0) == 0xc13eadb1
        && ((0xc13eadb1u32 >> 8) | (0xc13eadb1u32 << 24)) == 0xb1c13ead
        && (0xecbcaf9eu32 ^ 0x92d8fb06) == 0x7e645498
        && ((0x7e645498u32 >> 7) | (0x7e645498u32 << 25)) == 0x30fcc8a9
        && (0x22702383u32 ^ 0x0c10628d) == 0x2e60410e
        && ((0x2e60410eu32 >> 16) | (0x2e60410eu32 << 16)) == 0x410e2e60
        && (0xe3791d0du32 ^ 0x3ea8b249) == 0xddd1af44
        && ((0xddd1af44u32 >> 12) | (0xddd1af44u32 << 20)) == 0xf44ddd1a
        && (0x410e2e60u32 ^ 0x005e3fa8) == 0x415011c8
        && ((0x415011c8u32 >> 8) | (0x415011c8u32 << 24)) == 0xc8415011
        && (0xf44ddd1au32 ^ 0x06ea025a) == 0xf2a7df40
        && ((0xf2a7df40u32 >> 7) | (0xf2a7df40u32 << 25)) == 0x81e54fbe) by (bit_vector);
    let m = first_block();
    let s = sigma_s(9);
    let v0 = seq![
        0x97abb416u32, 0xe54554f1, 0x173ac95a, 0xd4e73f61, 0xd463f86e, 0x6881fb12, 0x582904a5, 0x0976e87b,
        0x896d35fd, 0x272efa67, 0x3179220a, 0x4ddd8682, 0x5bc57704, 0x104c25f1, 0x921e9fb5, 0x58086d0e,
    ];
    lemma_mixed(
        v0,
        (0, 4, 8, 12),
        11,
        3,
        (0x6c0fac8f, 0x37cadb8b, 0xdb8b37ca, 0x64f86dc7, 0xb09b95a9, 0x5a9b09b9),
        (0xc6aab64b, 0x1d218181, 0x811d2181, 0xe6158f48, 0xbc8e86f1, 0xe3791d0d),
    );
    let v1 = mix_s(v0, 0, 4, 8, 12, m[s[0]], m[s[1]]);
    lemma_mixed(
        v1,
        (1, 5, 9, 13),
        9,
        5,
        (0x4dc7500c, 0x5d8b75fd, 0x75fd5d8b, 0x9d2c57f2, 0xf5adace0, 0xce0f5ada),
        (0x1bd6aaeb, 0x6e2bf760, 0x606e2bf7, 0xfd9a83e9, 0x3395d933, 0x66672bb2),
    );
    let v2 = mix_s(v1, 1, 5, 9, 13, m[s[2]], m[s[3]]);
    lemma_mixed(
        v2,
        (2, 6, 10, 14),
        8,
        7,
        (0x6f63ce07, 0xfd7d51b2, 0x51b2fd7d, 0x832c1f87, 0xdb051b22, 0xb22db051),
        (0x21917e5f, 0x70238322, 0x22702383, 0xa59c430a, 0x17b1f35b, 0xb62f63e6),
    );
    let v3 = mix_s(v2, 2, 6, 10, 14, m[s[4]], m[s[5]]);
    lemma_mixed(
        v3,
        (3, 7, 11, 15),
        2,
        6,
        (0xde5e27de, 0x86564ad0, 0x4ad08656, 0x98ae0cd8, 0x91d8e4a3, 0x4a391d8e),
        (0x28974572, 0x6247c324, 0x246247c3, 0xbd10549b, 0xf7294915, 0x2bee5292),
    );
    let v4 = mix_s(v3, 3, 7, 11, 15, m[s[6]], m[s[7]]);
    lemma_mixed(
        v4,
        (0, 5, 10, 15),
        16,
        12,
        (0x2d11e20d, 0x0973a5ce, 0xa5ce0973, 0x4b6a4c7d, 0x2d0d67cf, 0x7cf2d0d6),
        (0xaa04b2ef, 0x0fcabb9c, 0x9c0fcabb, 0xe77a1738, 0x9b88c7ee, 0xdd37118f),
    );
    let v5 = mix_s(v4, 0, 5, 10, 15, m[s[8]], m[s[9]]);
    lemma_mixed(
        v5,
        (1, 6, 11, 12),
        10,
        15,
        (0xd2060edb, 0x531b2f5a, 0x2f5a531b, 0xec6aa7b6, 0x5a45c450, 0x4505a45c),
        (0x170bb346, 0x3851e05d, 0x5d3851e0, 0x49a2f996, 0x0ca75dca, 0x94194ebb),
    );
    let v6 = mix_s(v5, 1, 6, 11, 12, m[s[10]], m[s[11]]);
    lemma_mixed(
        v6,
        (2, 7, 8, 13),
        4,
        13,
        (0x4d7fd0f5, 0x2d11fb02, 0xfb022d11, 0xe117bc59, 0xcaf9eecb, 0xecbcaf9e),
        (0x3a3c80a0, 0xc13eadb1, 0xb1c13ead, 0x92d8fb06, 0x7e645498, 0x30fcc8a9),
    );
    let v7 = mix_s(v6, 2, 7, 8, 13, m[s[12]], m[s[13]]);
    lemma_mixed(
        v7,
        (3, 4, 9, 14),
        14,
        1,
        (0x0c10628d, 0x2e60410e, 0x410e2e60, 0x3ea8b249, 0xddd1af44, 0xf44ddd1a),
        (0x005e3fa8, 0x415011c8, 0xc8415011, 0x06ea025a, 0xf2a7df40, 0x81e54fbe),
    );
    let v8 = mix_s(v7, 3, 4, 9, 14, m[s[14]], m[s[15]]);
    assert(v8 =~= seq![
        0xaa04b2efu32, 0x170bb346, 0x3a3c80a0, 0x005e3fa8, 0x81e54fbe, 0xdd37118f, 0x94194ebb, 0x30fcc8a9,
        0x92d8fb06, 0x06ea025a, 0xe77a1738, 0x49a2f996, 0x5d3851e0, 0xb1c13ead, 0xc8415011, 0x9c0fcabb,
    ]);
    reveal(round_s);
}

proof fn lemma_first_block()
    ensures
        compress_s(seq![
            0x6b08e647u32, 0xbb67ae85, 0x3c6ef372, 0xa54ff53a, 0x510e527f, 0x9b05688c, 0x1f83d9ab, 0x5be0cd19,
        ], first_block(), 64u64, false) == seq![
            0x53d4afaeu32, 0xaa861f99, 0xe12864ea, 0xecb33304, 0x8dd34c21, 0xf7f347ae, 0x43dbc701, 0xf713cf0b,
        ],
{
    assert((0x6b08e647u32 ^ 0xaa04b2ef ^ 0x92d8fb06) == 0x53d4afae
        && (0xbb67ae85u32 ^ 0x170bb346 ^ 0x06ea025a) == 0xaa861f99
        && (0x3c6ef372u32 ^ 0x3a3c80a0 ^ 0xe77a1738) == 0xe12864ea
        && (0xa54ff53au32 ^ 0x005e3fa8 ^ 0x49a2f996) == 0xecb33304
        && (0x510e527fu32 ^ 0x81e54fbe ^ 0x5d3851e0) == 0x8dd34c21
        && (0x9b05688cu32 ^ 0xdd37118f ^ 0xb1c13ead) == 0xf7f347ae
        && (0x1f83d9abu32 ^ 0x94194ebb ^ 0xc8415011) == 0x43dbc701
        && (0x5be0cd19u32 ^ 0x30fcc8a9 ^ 0x9c0fcabb) == 0xf713cf0b
        && (0x510e527fu32 ^ 0x00000040) == 0x510e523f
        && (0x9b05688cu32 ^ 0) == 0x9b05688c
        && (64u64 & 0xffff_ffffu64) == 64u64
        && (64u64 >> 32u64) == 0u64) by (bit_vector);
    reveal(compress_s);
    let h = seq![
        0x6b08e647u32, 0xbb67ae85, 0x3c6ef372, 0xa54ff53a, 0x510e527f, 0x9b05688c, 0x1f83d9ab, 0x5be0cd19,
    ];
    let m = first_block();
    let v = working_s(h, 64u64, false);
    assert(v =~= seq![
        0x6b08e647u32, 0xbb67ae85, 0x3c6ef372, 0xa54ff53a, 0x510e527f, 0x9b05688c, 0x1f83d9ab, 0x5be0cd19,
        0x6a09e667, 0xbb67ae85, 0x3c6ef372, 0xa54ff53a, 0x510e523f, 0x9b05688c, 0x1f83d9ab, 0x5be0cd19,
    ]);
    lemma_first_block_round_0();
    lemma_first_block_round_1();
    lemma_first_block_round_2();
    lemma_first_block_round_3();
    lemma_first_block_round_4();
    lemma_first_block_round_5();
    lemma_first_block_round_6();
    lemma_first_block_round_7();
    lemma_first_block_round_8();
    lemma_first_block_round_9();
    assert(rounds_s(v, m, 1) == round_s(rounds_s(v, m, 0), m, 0));
    assert(rounds_s(v, m, 2) == round_s(rounds_s(v, m, 1), m, 1));
    assert(rounds_s(v, m, 3) == round_s(rounds_s(v, m, 2), m, 2));
    assert(rounds_s(v, m, 4) == round_s(rounds_s(v, m, 3), m, 3));
    assert(rounds_s(v, m, 5) == round_s(rounds_s(v, m, 4), m, 4));
    assert(rounds_s(v, m, 6) == round_s(rounds_s(v, m, 5), m, 5));
    assert(rounds_s(v, m, 7) == round_s(rounds_s(v, m, 6), m, 6));
    assert(rounds_s(v, m, 8) == round_s(rounds_s(v, m, 7), m, 7));
    assert(rounds_s(v, m, 9) == round_s(rounds_s(v, m, 8), m, 8));
    assert(rounds_s(v, m, 10) == round_s(rounds_s(v, m, 9), m, 9));
    assert(compress_s(h, m, 64u64, false) =~= seq![
        0x53d4afaeu32, 0xaa861f99, 0xe12864ea, 0xecb33304, 0x8dd34c21, 0xf7f347ae, 0x43dbc701, 0xf713cf0b,
    ]);
}

proof fn lemma_second_block_round_0()
    ensures
        round_s(seq![
            0x53d4afaeu32, 0xaa861f99, 0xe12864ea, 0xecb33304, 0x8dd34c21, 0xf7f347ae, 0x43dbc701, 0xf713cf0b,
            0x6a09e667, 0xbb67ae85, 0x3c6ef372, 0xa54ff53a, 0x510e523b, 0x9b05688c, 0xe07c2654, 0x5be0cd19,
        ], second_block(), 0) == seq![
            0x00df946eu32, 0x7bfc4168, 0x3b481e79, 0x882e25b6, 0x9633af73, 0xcc94321f, 0xaef72ffb, 0x8e0f2042,
            0xa9e06a53, 0x40ffcc66, 0x03e0477b, 0x040ec899, 0x366d8959, 0x3c4e278f, 0x9d332930, 0x4d328f60,
        ],
{
    assert((0x510e523bu32 ^ 0xe1a7fbe0) == 0xb0a9a9db
        && ((0xb0a9a9dbu32 >> 16) | (0xb0a9a9dbu32 << 16)) == 0xa9dbb0a9
        && (0x8dd34c21u32 ^ 0x13e59710) == 0x9e36db31
        && ((0x9e36db31u32 >> 12) | (0x9e36db31u32 << 20)) == 0xb319e36d
        && (0xa9dbb0a9u32 ^ 0x94c1df4d) == 0x3d1a6fe4
        && ((0x3d1a6fe4u32 >> 8) | (0x3d1a6fe4u32 << 24)) == 0xe43d1a6f
        && (0xb319e36du32 ^ 0xf822b17f) == 0x4b3b5212
        && ((0x4b3b5212u32 >> 7) | (0x4b3b5212u32 << 25)) == 0x249676a4
        && (0x9b05688cu32 ^ 0xa2796747) == 0x397c0fcb
        && ((0x397c0fcbu32 >> 16) | (0x397c0fcbu32 << 16)) == 0x0fcb397c
        && (0xf7f347aeu32 ^ 0xcb32e801) == 0x3cc1afaf
        && ((0x3cc1afafu32 >> 12) | (0x3cc1afafu32 << 20)) == 0xfaf3cc1a
        && (0x0fcb397cu32 ^ 0x9d6d3361) == 0x92a60a1d
        && ((0x92a60a1du32 >> 8) | (0x92a60a1du32 << 24)) == 0x1d92a60a
        && (0xfaf3cc1au32 ^ 0xe8c58e0b) == 0x12364211
        && ((0x12364211u32 >> 7) | (0x12364211u32 << 25)) == 0x22246c84
        && (0xe07c2654u32 ^ 0x25042beb) == 0xc5780dbf
        && ((0xc5780dbfu32 >> 16) | (0xc5780dbfu32 << 16)) == 0x0dbfc578
        && (0x43dbc701u32 ^ 0x4a2eb8ea) == 0x09f57feb
        && ((0x09f57febu32 >> 12) | (0x09f57febu32 << 20)) == 0xfeb09f57
        && (0x0dbfc578u32 ^ 0x23b4cb42) == 0x2e0b0e3a
        && ((0x2e0b0e3au32 >> 8) | (0x2e0b0e3au32 << 24)) == 0x3a2e0b0e
        && (0xfeb09f57u32 ^ 0x845cc3f8) == 0x7aec5caf
        && ((0x7aec5cafu32 >> 7) | (0x7aec5cafu32 << 25)) == 0x5ef5d8b9
        && (0x5be0cd19u32 ^ 0xe3c7020f) == 0xb827cf16
        && ((0xb827cf16u32 >> 16) | (0xb827cf16u32 << 16)) == 0xcf16b827
        && (0xf713cf0bu32 ^ 0x7466ad61) == 0x8375626a
        && ((0x8375626au32 >> 12) | (0x8375626au32 << 20)) == 0x26a83756
        && (0xcf16b827u32 ^ 0x0a6f3965) == 0xc5798142
        && ((0xc5798142u32 >> 8) | (0xc5798142u32 << 24)) == 0x42c57981
        && (0x26a83756u32 ^ 0xb72c26e2) == 0x918411b4
        && ((0x918411b4u32 >> 7) | (0x918411b4u32 << 25)) == 0x69230823
        && (0x42c57981u32 ^ 0xb6e64bd1) == 0xf4233250
        && ((0xf4233250u32 >> 16) | (0xf4233250u32 << 16)) == 0x3250f423
        && (0x22246c84u32 ^ 0xb6adb81b) == 0x9489d49f
        && ((0x9489d49fu32 >> 12) | (0x9489d49fu32 << 20)) == 0x49f9489d
        && (0x3250f423u32 ^ 0x00df946e) == 0x328f604d
        && ((0x328f604du32 >> 8) | (0x328f604du32 << 24)) == 0x4d328f60
        && (0x49f9489du32 ^ 0x03e0477b) == 0x4a190fe6
        && ((0x4a190fe6u32 >> 7) | (0x4a190fe6u32 << 25)) == 0xcc94321f
        && (0xe43d1a6fu32 ^ 0xfc630c1a) == 0x185e1675
        && ((0x185e1675u32 >> 16) | (0x185e1675u32 << 16)) == 0x1675185e
        && (0x5ef5d8b9u32 ^ 0xcda13f40) == 0x9354e7f9
        && ((0x9354e7f9u32 >> 12) | (0x9354e7f9u32 << 20)) == 0x7f99354e
        && (0x1675185eu32 ^ 0x7bfc4168) == 0x6d895936
        && ((0x6d895936u32 >> 8) | (0x6d895936u32 << 24)) == 0x366d8959
        && (0x7f99354eu32 ^ 0x040ec899) == 0x7b97fdd7
        && ((0x7b97fdd7u32 >> 7) | (0x7b97fdd7u32 << 25)) == 0xaef72ffb
        && (0x1d92a60au32 ^ 0x8cd7d365) == 0x9145756f
        && ((0x9145756fu32 >> 16) | (0x9145756fu32 << 16)) == 0x756f9145
        && (0x69230823u32 ^ 0x6d9242c4) == 0x04b14ae7
        && ((0x04b14ae7u32 >> 12) | (0x04b14ae7u32 << 20)) == 0xae704b14
        && (0x756f9145u32 ^ 0x3b481e79) == 0x4e278f3c
        && ((0x4e278f3cu32 >> 8) | (0x4e278f3cu32 << 24)) == 0x3c4e278f
        && (0xae704b14u32 ^ 0xa9e06a53) == 0x07902147
        && ((0x07902147u32 >> 7) | (0x07902147u32 << 25)) == 0x8e0f2042
        && (0x3a2e0b0eu32 ^ 0x2f05b009) == 0x152bbb07
        && ((0x152bbb07u32 >> 16) | (0x152bbb07u32 << 16)) == 0xbb07152b
        && (0x249676a4u32 ^ 0xa3cca336) == 0x875ad592
        && ((0x875ad592u32 >> 12) | (0x875ad592u32 << 20)) == 0x592875ad
        && (0xbb07152bu32 ^ 0x882e25b6) == 0x3329309d
        && ((0x3329309du32 >> 8) | (0x3329309du32 << 24)) == 0x9d332930
        && (0x592875adu32 ^ 0x40ffcc66) == 0x19d7b9cb
        && ((0x19d7b9cbu32 >> 7) | (0x19d7b9cbu32 << 25)) == 0x9633af73) by (bit_vector);
    let m = second_block();
    let s = sigma_s(0);
    let v0 = seq![
        0x53d4afaeu32, 0xaa861f99, 0xe12864ea, 0xecb33304, 0x8dd34c21, 0xf7f347ae, 0x43dbc701, 0xf713cf0b,
        0x6a09e667, 0xbb67ae85, 0x3c6ef372, 0xa54ff53a, 0x510e523b, 0x9b05688c, 0xe07c2654, 0x5be0cd19,
    ];
    lemma_mixed(
        v0,
        (0, 4, 8, 12),
        17,
        0,
        (0xe1a7fbe0, 0xb0a9a9db, 0xa9dbb0a9, 0x13e59710, 0x9e36db31, 0xb319e36d),
        (0x94c1df4d, 0x3d1a6fe4, 0xe43d1a6f, 0xf822b17f, 0x4b3b5212, 0x249676a4),
    );
    let v1 = mix_s(v0, 0, 4, 8, 12, m[s[0]], m[s[1]]);
    lemma_mixed(
        v1,
        (1, 5, 9, 13),
        0,
        0,
        (0xa2796747, 0x397c0fcb, 0x0fcb397c, 0xcb32e801, 0x3cc1afaf, 0xfaf3cc1a),
        (0x9d6d3361, 0x92a60a1d, 0x1d92a60a, 0xe8c58e0b, 0x12364211, 0x22246c84),
    );
    let v2 = mix_s(v1, 1, 5, 9, 13, m[s[2]], m[s[3]]);
    lemma_mixed(
        v2,
        (2, 6, 10, 14),
        0,
        0,
        (0x25042beb, 0xc5780dbf, 0x0dbfc578, 0x4a2eb8ea, 0x09f57feb, 0xfeb09f57),
        (0x23b4cb42, 0x2e0b0e3a, 0x3a2e0b0e, 0x845cc3f8, 0x7aec5caf, 0x5ef5d8b9),
    );
    let v3 = mix_s(v2, 2, 6, 10, 14, m[s[4]], m[s[5]]);
    lemma_mixed(
        v3,
        (3, 7, 11, 15),
        0,
        0,
        (0xe3c7020f, 0xb827cf16, 0xcf16b827, 0x7466ad61, 0x8375626a, 0x26a83756),
        (0x0a6f3965, 0xc5798142, 0x42c57981, 0xb72c26e2, 0x918411b4, 0x69230823),
    );
    let v4 = mix_s(v3, 3, 7, 11, 15, m[s[6]], m[s[7]]);
    lemma_mixed(
        v4,
        (0, 5, 10, 15),
        0,
        0,
        (0xb6e64bd1, 0xf4233250, 0x3250f423, 0xb6adb81b, 0x9489d49f, 0x49f9489d),
        (0x00df946e, 0x328f604d, 0x4d328f60, 0x03e0477b, 0x4a190fe6, 0xcc94321f),
    );
    let v5 = mix_s(v4, 0, 5, 10, 15, m[s[8]], m[s[9]]);
    lemma_mixed(
        v5,
        (1, 6, 11, 12),
        0,
        0,
        (0xfc630c1a, 0x185e1675, 0x1675185e, 0xcda13f40, 0x9354e7f9, 0x7f99354e),
        (0x7bfc4168, 0x6d895936, 0x366d8959, 0x040ec899, 0x7b97fdd7, 0xaef72ffb),
    );
    let v6 = mix_s(v5, 1, 6, 11, 12, m[s[10]], m[s[11]]);
    lemma_mixed(
        v6,
        (2, 7, 8, 13),
        0,
        0,
        (0x8cd7d365, 0x9145756f, 0x756f9145, 0x6d9242c4, 0x04b14ae7, 0xae704b14),
        (0x3b481e79, 0x4e278f3c, 0x3c4e278f, 0xa9e06a53, 0x07902147, 0x8e0f2042),
    );
    let v7 = mix_s(v6, 2, 7, 8, 13, m[s[12]], m[s[13]]);
    lemma_mixed(
        v7,
        (3, 4, 9, 14),
        0,
        0,
        (0x2f05b009, 0x152bbb07, 0xbb07152b, 0xa3cca336, 0x875ad592, 0x592875ad),
        (0x882e25b6, 0x3329309d, 0x9d332930, 0x40ffcc66, 0x19d7b9cb, 0x9633af73),
    );
    let v8 = mix_s(v7, 3, 4, 9, 14, m[s[14]], m[s[15]]);
    assert(v8 =~= seq![
        0x00df946eu32, 0x7bfc4168, 0x3b481e79, 0x882e25b6, 0x9633af73, 0xcc94321f, 0xaef72ffb, 0x8e0f2042,
        0xa9e06a53, 0x40ffcc66, 0x03e0477b, 0x040ec899, 0x366d8959, 0x3c4e278f, 0x9d332930, 0x4d328f60,
    ]);
    reveal(round_s);
}

proof fn lemma_second_block_round_1()
    ensures
        round_s(seq![
            0x00df946eu32, 0x7bfc4168, 0x3b481e79, 0x882e25b6, 0x9633af73, 0xcc94321f, 0xaef72ffb, 0x8e0f2042,
            0xa9e06a53, 0x40ffcc66, 0x03e0477b, 0x040ec899, 0x366d8959, 0x3c4e278f, 0x9d332930, 0x4d328f60,
        ], second_block(), 1) == seq![
            0xcca0e332u32, 0xbd3e7c73, 0x3ebc381c, 0x4ea2ce7e, 0x4e4a394f, 0xb62c6357, 0x56885d75, 0xe90075a4,
            0x55841b37, 0xc065000f, 0xe10fcda0, 0xceef58c5, 0x24def4bb, 0xcb1e1cc0, 0x3227a806, 0xcec91c41,
        ],
{
    assert((0x366d8959u32 ^ 0x971343e1) == 0xa17ecab8
        && ((0xa17ecab8u32 >> 16) | (0xa17ecab8u32 << 16)) == 0xcab8a17e
        && (0x9633af73u32 ^ 0x74990bd1) == 0xe2aaa4a2
        && ((0xe2aaa4a2u32 >> 12) | (0xe2aaa4a2u32 << 20)) == 0x4a2e2aaa
        && (0xcab8a17eu32 ^ 0xe1416e8b) == 0x2bf9cff5
        && ((0x2bf9cff5u32 >> 8) | (0x2bf9cff5u32 << 24)) == 0xf52bf9cf
        && (0x4a2e2aaau32 ^ 0x69c505a0) == 0x23eb2f0a
        && ((0x23eb2f0au32 >> 7) | (0x23eb2f0au32 << 25)) == 0x1447d65e
        && (0x3c4e278fu32 ^ 0x48907387) == 0x74de5408
        && ((0x74de5408u32 >> 16) | (0x74de5408u32 << 16)) == 0x540874de
        && (0xcc94321fu32 ^ 0x95084144) == 0x599c735b
        && ((0x599c735bu32 >> 12) | (0x599c735bu32 << 20)) == 0x35b599c7
        && (0x540874deu32 ^ 0x7e460d4e) == 0x2a4e7990
        && ((0x2a4e7990u32 >> 8) | (0x2a4e7990u32 << 24)) == 0x902a4e79
        && (0x35b599c7u32 ^ 0x25328fbd) == 0x1087167a
        && ((0x1087167au32 >> 7) | (0x1087167au32 << 25)) == 0xf4210e2c
        && (0x9d332930u32 ^ 0xea3f4e74) == 0x770c6744
        && ((0x770c6744u32 >> 16) | (0x770c6744u32 << 16)) == 0x6744770c
        && (0xaef72ffbu32 ^ 0x6b24be87) == 0xc5d3917c
        && ((0xc5d3917cu32 >> 12) | (0xc5d3917cu32 << 20)) == 0x17cc5d39
        && (0x6744770cu32 ^ 0x020babad) == 0x654fdca1
        && ((0x654fdca1u32 >> 8) | (0x654fdca1u32 << 24)) == 0xa1654fdc
        && (0x17cc5d39u32 ^ 0x0c8a0e63) == 0x1b46535a
        && ((0x1b46535au32 >> 7) | (0x1b46535au32 << 25)) == 0xb4368ca6
        && (0x4d328f60u32 ^ 0x163d45f8) == 0x5b0fca98
        && ((0x5b0fca98u32 >> 16) | (0x5b0fca98u32 << 16)) == 0xca985b0f
        && (0x8e0f2042u32 ^ 0xcea723a8) == 0x40a803ea
        && ((0x40a803eau32 >> 12) | (0x40a803eau32 << 20)) == 0x3ea40a80
        && (0xca985b0fu32 ^ 0x54e15078) == 0x9e790b77
        && ((0x9e790b77u32 >> 8) | (0x9e790b77u32 << 24)) == 0x779e790b
        && (0x3ea40a80u32 ^ 0x46459cb3) == 0x78e19633
        && ((0x78e19633u32 >> 7) | (0x78e19633u32 << 25)) == 0x66f1c32c
        && (0x779e790bu32 ^ 0xd5627cb7) == 0xa2fc05bc
        && ((0xa2fc05bcu32 >> 16) | (0xa2fc05bcu32 << 16)) == 0x05bca2fc
        && (0xf4210e2cu32 ^ 0x1246b15f) == 0xe667bf73
        && ((0xe667bf73u32 >> 12) | (0xe667bf73u32 << 20)) == 0xf73e667b
        && (0x05bca2fcu32 ^ 0xcca0e332) == 0xc91c41ce
        && ((0xc91c41ceu32 >> 8) | (0xc91c41ceu32 << 24)) == 0xcec91c41
        && (0xf73e667bu32 ^ 0xe10fcda0) == 0x1631abdb
        && ((0x1631abdbu32 >> 7) | (0x1631abdbu32 << 25)) == 0xb62c6357
        && (0xf52bf9cfu32 ^ 0x327c9a05) == 0xc75763ca
        && ((0xc75763cau32 >> 16) | (0xc75763cau32 << 16)) == 0x63cac757
        && (0xb4368ca6u32 ^ 0xaa10640a) == 0x1e26e8ac
        && ((0x1e26e8acu32 >> 12) | (0x1e26e8acu32 << 20)) == 0x8ac1e26e
        && (0x63cac757u32 ^ 0xbd3e7c73) == 0xdef4bb24
        && ((0xdef4bb24u32 >> 8) | (0xdef4bb24u32 << 24)) == 0x24def4bb
        && (0x8ac1e26eu32 ^ 0xceef58c5) == 0x442ebaab
        && ((0x442ebaabu32 >> 7) | (0x442ebaabu32 << 25)) == 0x56885d75
        && (0x902a4e79u32 ^ 0x68fd6ed9) == 0xf8d720a0
        && ((0xf8d720a0u32 >> 16) | (0xf8d720a0u32 << 16)) == 0x20a0f8d7
        && (0x66f1c32cu32 ^ 0x8a65fe77) == 0xec943d5b
        && ((0xec943d5bu32 >> 12) | (0xec943d5bu32 << 20)) == 0xd5bec943
        && (0x20a0f8d7u32 ^ 0x3ebc381c) == 0x1e1cc0cb
        && ((0x1e1cc0cbu32 >> 8) | (0x1e1cc0cbu32 << 24)) == 0xcb1e1cc0
        && (0xd5bec943u32 ^ 0x55841b37) == 0x803ad274
        && ((0x803ad274u32 >> 7) | (0x803ad274u32 << 25)) == 0xe90075a4
        && (0xa1654fdcu32 ^ 0x692926d6) == 0xc84c690a
        && ((0xc84c690au32 >> 16) | (0xc84c690au32 << 16)) == 0x690ac84c
        && (0x1447d65eu32 ^ 0x8e3d5809) == 0x9a7a8e57
        && ((0x9a7a8e57u32 >> 12) | (0x9a7a8e57u32 << 20)) == 0xe579a7a8
        && (0x690ac84cu32 ^ 0x4ea2ce7e) == 0x27a80632
        && ((0x27a80632u32 >> 8) | (0x27a80632u32 << 24)) == 0x3227a806
        && (0xe579a7a8u32 ^ 0xc065000f) == 0x251ca7a7
        && ((0x251ca7a7u32 >> 7) | (0x251ca7a7u32 << 25)) == 0x4e4a394f) by (bit_vector);
    let m = second_block();
    let s = sigma_s(1);
    let v0 = seq![
        0x00df946eu32, 0x7bfc4168, 0x3b481e79, 0x882e25b6, 0x9633af73, 0xcc94321f, 0xaef72ffb, 0x8e0f2042,
        0xa9e06a53, 0x40ffcc66, 0x03e0477b, 0x040ec899, 0x366d8959, 0x3c4e278f, 0x9d332930, 0x4d328f60,
    ];
    lemma_mixed(
        v0,
        (0, 4, 8, 12),
        0,
        0,
        (0x971343e1, 0xa17ecab8, 0xcab8a17e, 0x74990bd1, 0xe2aaa4a2, 0x4a2e2aaa),
        (0xe1416e8b, 0x2bf9cff5, 0xf52bf9cf, 0x69c505a0, 0x23eb2f0a, 0x1447d65e),
    );
    let v1 = mix_s(v0, 0, 4, 8, 12, m[s[0]], m[s[1]]);
    lemma_mixed(
        v1,
        (1, 5, 9, 13),
        0,
        0,
        (0x48907387, 0x74de5408, 0x540874de, 0x95084144, 0x599c735b, 0x35b599c7),
        (0x7e460d4e, 0x2a4e7990, 0x902a4e79, 0x25328fbd, 0x1087167a, 0xf4210e2c),
    );
    let v2 = mix_s(v1, 1, 5, 9, 13, m[s[2]], m[s[3]]);
    lemma_mixed(
        v2,
        (2, 6, 10, 14),
        0,
        0,
        (0xea3f4e74, 0x770c6744, 0x6744770c, 0x6b24be87, 0xc5d3917c, 0x17cc5d39),
        (0x020babad, 0x654fdca1, 0xa1654fdc, 0x0c8a0e63, 0x1b46535a, 0xb4368ca6),
    );
    let v3 = mix_s(v2, 2, 6, 10, 14, m[s[4]], m[s[5]]);
    lemma_mixed(
        v3,
        (3, 7, 11, 15),
        0,
        0,
        (0x163d45f8, 0x5b0fca98, 0xca985b0f, 0xcea723a8, 0x40a803ea, 0x3ea40a80),
        (0x54e15078, 0x9e790b77, 0x779e790b, 0x46459cb3, 0x78e19633, 0x66f1c32c),
    );
    let v4 = mix_s(v3, 3, 7, 11, 15, m[s[6]], m[s[7]]);
    lemma_mixed(
        v4,
        (0, 5, 10, 15),
        0,
        0,
        (0xd5627cb7, 0xa2fc05bc, 0x05bca2fc, 0x1246b15f, 0xe667bf73, 0xf73e667b),
        (0xcca0e332, 0xc91c41ce, 0xcec91c41, 0xe10fcda0, 0x1631abdb, 0xb62c6357),
    );
    let v5 = mix_s(v4, 0, 5, 10, 15, m[s[8]], m[s[9]]);
    lemma_mixed(
        v5,
        (1, 6, 11, 12),
        17,
        0,
        (0x327c9a05, 0xc75763ca, 0x63cac757, 0xaa10640a, 0x1e26e8ac, 0x8ac1e26e),
        (0xbd3e7c73, 0xdef4bb24, 0x24def4bb, 0xceef58c5, 0x442ebaab, 0x56885d75),
    );
    let v6 = mix_s(v5, 1, 6, 11, 12, m[s[10]], m[s[11]]);
    lemma_mixed(
        v6,
        (2, 7, 8, 13),
        0,
        0,
        (0x68fd6ed9, 0xf8d720a0, 0x20a0f8d7, 0x8a65fe77, 0xec943d5b, 0xd5bec943),
        (0x3ebc381c, 0x1e1cc0cb, 0xcb1e1cc0, 0x55841b37, 0x803ad274, 0xe90075a4),
    );
    let v7 = mix_s(v6, 2, 7, 8, 13, m[s[12]], m[s[13]]);
    lemma_mixed(
        v7,
        (3, 4, 9, 14),
        0,
        0,
        (0x692926d6, 0xc84c690a, 0x690ac84c, 0x8e3d5809, 0x9a7a8e57, 0xe579a7a8),
        (0x4ea2ce7e, 0x27a80632, 0x3227a806, 0xc065000f, 0x251ca7a7, 0x4e4a394f),
    );
    let v8 = mix_s(v7, 3, 4, 9, 14, m[s[14]], m[s[15]]);
    assert(v8 =~= seq![
        0xcca0e332u32, 0xbd3e7c73, 0x3ebc381c, 0x4ea2ce7e, 0x4e4a394f, 0xb62c6357, 0x56885d75, 0xe90075a4,
        0x55841b37, 0xc065000f, 0xe10fcda0, 0xceef58c5, 0x24def4bb, 0xcb1e1cc0, 0x3227a806, 0xcec91c41,
    ]);
    reveal(round_s);
}

proof fn lemma_second_block_round_2()
    ensures
        round_s(seq![
            0xcca0e332u32, 0xbd3e7c73, 0x3ebc381c, 0x4ea2ce7e, 0x4e4a394f, 0xb62c6357, 0x56885d75, 0xe90075a4,
            0x55841b37, 0xc065000f, 0xe10fcda0, 0xceef58c5, 0x24def4bb, 0xcb1e1cc0, 0x3227a806, 0xcec91c41,
        ], second_block(), 2) == seq![
            0xb20bc05cu32, 0xa4bb3718, 0xff5909f8, 0x15b24f3a, 0x5bd6430a, 0x2d5d66a2, 0x72ab25ee, 0x5bd3d53f,
            0xa1987db9, 0xddcc9864, 0x9efc7595, 0x468b5da7, 0x4c30a454, 0xed7c31d3, 0xde1afc71, 0x082a027f,
        ],
{
    assert((0x24def4bbu32 ^ 0x1aeb1c81) == 0x3e35e83a
        && ((0x3e35e83au32 >> 16) | (0x3e35e83au32 << 16)) == 0xe83a3e35
        && (0x4e4a394fu32 ^ 0x3dbe596c) == 0x73f46023
        && ((0x73f46023u32 >> 12) | (0x73f46023u32 << 20)) == 0x02373f46
        && (0xe83a3e35u32 ^ 0x1d225bc7) == 0xf51865f2
        && ((0xf51865f2u32 >> 8) | (0xf51865f2u32 << 24)) == 0xf2f51865
        && (0x02373f46u32 ^ 0x30b371d1) == 0x32844e97
        && ((0x32844e97u32 >> 7) | (0x32844e97u32 << 25)) == 0x2e65089d
        && (0xcb1e1cc0u32 ^ 0x736adfca) == 0xb874c30a
        && ((0xb874c30au32 >> 16) | (0xb874c30au32 << 16)) == 0xc30ab874
        && (0xb62c6357u32 ^ 0x836fb883) == 0x3543dbd4
        && ((0x3543dbd4u32 >> 12) | (0x3543dbd4u32 << 20)) == 0xbd43543d
        && (0xc30ab874u32 ^ 0x30ae3418) == 0xf3a48c6c
        && ((0xf3a48c6cu32 >> 8) | (0xf3a48c6cu32 << 24)) == 0x6cf3a48c
        && (0xbd43543du32 ^ 0xf0635d0f) == 0x4d200932
        && ((0x4d200932u32 >> 7) | (0x4d200932u32 << 25)) == 0x649a4012
        && (0x3227a806u32 ^ 0x95449591) == 0xa7633d97
        && ((0xa7633d97u32 >> 16) | (0xa7633d97u32 << 16)) == 0x3d97a763
        && (0x56885d75u32 ^ 0x1ea77503) == 0x482f2876
        && ((0x482f2876u32 >> 12) | (0x482f2876u32 << 20)) == 0x876482f2
        && (0x3d97a763u32 ^ 0x1ca91883) == 0x213ebfe0
        && ((0x213ebfe0u32 >> 8) | (0x213ebfe0u32 << 24)) == 0xe0213ebf
        && (0x876482f2u32 ^ 0xfec8b3c2) == 0x79ac3130
        && ((0x79ac3130u32 >> 7) | (0x79ac3130u32 << 25)) == 0x60f35862
        && (0xcec91c41u32 ^ 0x37a34422) == 0xf96a5863
        && ((0xf96a5863u32 >> 16) | (0xf96a5863u32 << 16)) == 0x5863f96a
        && (0xe90075a4u32 ^ 0x2753522f) == 0xce53278b
        && ((0xce53278bu32 >> 12) | (0xce53278bu32 << 20)) == 0x78bce532
        && (0x5863f96au32 ^ 0xb0602954) == 0xe803d03e
        && ((0xe803d03eu32 >> 8) | (0xe803d03eu32 << 24)) == 0x3ee803d0
        && (0x78bce532u32 ^ 0x663b55ff) == 0x1e87b0cd
        && ((0x1e87b0cdu32 >> 7) | (0x1e87b0cdu32 << 25)) == 0x9a3d0f61
        && (0x3ee803d0u32 ^ 0x81bc9bd9) == 0xbf549809
        && ((0xbf549809u32 >> 16) | (0xbf549809u32 << 16)) == 0x9809bf54
        && (0x649a4012u32 ^ 0x96d27316) == 0xf2483304
        && ((0xf2483304u32 >> 12) | (0xf2483304u32 << 20)) == 0x304f2483
        && (0x9809bf54u32 ^ 0xb20bc05c) == 0x2a027f08
        && ((0x2a027f08u32 >> 8) | (0x2a027f08u32 << 24)) == 0x082a027f
        && (0x304f2483u32 ^ 0x9efc7595) == 0xaeb35116
        && ((0xaeb35116u32 >> 7) | (0xaeb35116u32 << 25)) == 0x2d5d66a2
        && (0xf2f51865u32 ^ 0x91a18c7a) == 0x6354941f
        && ((0x6354941fu32 >> 16) | (0x6354941fu32 << 16)) == 0x941f6354
        && (0x60f35862u32 ^ 0xfa5ab953) == 0x9aa9e131
        && ((0x9aa9e131u32 >> 12) | (0x9aa9e131u32 << 20)) == 0x1319aa9e
        && (0x941f6354u32 ^ 0xa4bb3718) == 0x30a4544c
        && ((0x30a4544cu32 >> 8) | (0x30a4544cu32 << 24)) == 0x4c30a454
        && (0x1319aa9eu32 ^ 0x468b5da7) == 0x5592f739
        && ((0x5592f739u32 >> 7) | (0x5592f739u32 << 25)) == 0x72ab25ee
        && (0x6cf3a48cu32 ^ 0xb6e627e4) == 0xda158368
        && ((0xda158368u32 >> 16) | (0xda158368u32 << 16)) == 0x8368da15
        && (0x9a3d0f61u32 ^ 0xb41c4be6) == 0x2e214487
        && ((0x2e214487u32 >> 12) | (0x2e214487u32 << 20)) == 0x4872e214
        && (0x8368da15u32 ^ 0xff5909f8) == 0x7c31d3ed
        && ((0x7c31d3edu32 >> 8) | (0x7c31d3edu32 << 24)) == 0xed7c31d3
        && (0x4872e214u32 ^ 0xa1987db9) == 0xe9ea9fad
        && ((0xe9ea9fadu32 >> 7) | (0xe9ea9fadu32 << 25)) == 0x5bd3d53f
        && (0xe0213ebfu32 ^ 0xdec531f1) == 0x3ee40f4e
        && ((0x3ee40f4eu32 >> 16) | (0x3ee40f4eu32 << 16)) == 0x0f4e3ee4
        && (0x2e65089du32 ^ 0xffb19bf3) == 0xd1d4936e
        && ((0xd1d4936eu32 >> 12) | (0xd1d4936eu32 << 20)) == 0x36ed1d49
        && (0x0f4e3ee4u32 ^ 0x15b24f3a) == 0x1afc71de
        && ((0x1afc71deu32 >> 8) | (0x1afc71deu32 << 24)) == 0xde1afc71
        && (0x36ed1d49u32 ^ 0xddcc9864) == 0xeb21852d
        && ((0xeb21852du32 >> 7) | (0xeb21852du32 << 25)) == 0x5bd6430a) by (bit_vector);
    let m = second_block();
    let s = sigma_s(2);
    let v0 = seq![
        0xcca0e332u32, 0xbd3e7c73, 0x3ebc381c, 0x4ea2ce7e, 0x4e4a394f, 0xb62c6357, 0x56885d75, 0xe90075a4,
        0x55841b37, 0xc065000f, 0xe10fcda0, 0xceef58c5, 0x24def4bb, 0xcb1e1cc0, 0x3227a806, 0xcec91c41,
    ];
    lemma_mixed(
        v0,
        (0, 4, 8, 12),
        0,
        0,
        (0x1aeb1c81, 0x3e35e83a, 0xe83a3e35, 0x3dbe596c, 0x73f46023, 0x02373f46),
        (0x1d225bc7, 0xf51865f2, 0xf2f51865, 0x30b371d1, 0x32844e97, 0x2e65089d),
    );
    let v1 = mix_s(v0, 0, 4, 8, 12, m[s[0]], m[s[1]]);
    lemma_mixed(
        v1,
        (1, 5, 9, 13),
        0,
        17,
        (0x736adfca, 0xb874c30a, 0xc30ab874, 0x836fb883, 0x3543dbd4, 0xbd43543d),
        (0x30ae3418, 0xf3a48c6c, 0x6cf3a48c, 0xf0635d0f, 0x4d200932, 0x649a4012),
    );
    let v2 = mix_s(v1, 1, 5, 9, 13, m[s[2]], m[s[3]]);
    lemma_mixed(
        v2,
        (2, 6, 10, 14),
        0,
        0,
        (0x95449591, 0xa7633d97, 0x3d97a763, 0x1ea77503, 0x482f2876, 0x876482f2),
        (0x1ca91883, 0x213ebfe0, 0xe0213ebf, 0xfec8b3c2, 0x79ac3130, 0x60f35862),
    );
    let v3 = mix_s(v2, 2, 6, 10, 14, m[s[4]], m[s[5]]);
    lemma_mixed(
        v3,
        (3, 7, 11, 15),
        0,
        0,
        (0x37a34422, 0xf96a5863, 0x5863f96a, 0x2753522f, 0xce53278b, 0x78bce532),
        (0xb0602954, 0xe803d03e, 0x3ee803d0, 0x663b55ff, 0x1e87b0cd, 0x9a3d0f61),
    );
    let v4 = mix_s(v3, 3, 7, 11, 15, m[s[6]], m[s[7]]);
    lemma_mixed(
        v4,
        (0, 5, 10, 15),
        0,
        0,
        (0x81bc9bd9, 0xbf549809, 0x9809bf54, 0x96d27316, 0xf2483304, 0x304f2483),
        (0xb20bc05c, 0x2a027f08, 0x082a027f, 0x9efc7595, 0xaeb35116, 0x2d5d66a2),
    );
    let v5 = mix_s(v4, 0, 5, 10, 15, m[s[8]], m[s[9]]);
    lemma_mixed(
        v5,
        (1, 6, 11, 12),
        0,
        0,
        (0x91a18c7a, 0x6354941f, 0x941f6354, 0xfa5ab953, 0x9aa9e131, 0x1319aa9e),
        (0xa4bb3718, 0x30a4544c, 0x4c30a454, 0x468b5da7, 0x5592f739, 0x72ab25ee),
    );
    let v6 = mix_s(v5, 1, 6, 11, 12, m[s[10]], m[s[11]]);
    lemma_mixed(
        v6,
        (2, 7, 8, 13),
        0,
        0,
        (0xb6e627e4, 0xda158368, 0x8368da15, 0xb41c4be6, 0x2e214487, 0x4872e214),
        (0xff5909f8, 0x7c31d3ed, 0xed7c31d3, 0xa1987db9, 0xe9ea9fad, 0x5bd3d53f),
    );
    let v7 = mix_s(v6, 2, 7, 8, 13, m[s[12]], m[s[13]]);
    lemma_mixed(
        v7,
        (3, 4, 9, 14),
        0,
        0,
        (0xdec531f1, 0x3ee40f4e, 0x0f4e3ee4, 0xffb19bf3, 0xd1d4936e, 0x36ed1d49),
        (0x15b24f3a, 0x1afc71de, 0xde1afc71, 0xddcc9864, 0xeb21852d, 0x5bd6430a),
    );
    let v8 = mix_s(v7, 3, 4, 9, 14, m[s[14]], m[s[15]]);
    assert(v8 =~= seq![
        0xb20bc05cu32, 0xa4bb3718, 0xff5909f8, 0x15b24f3a, 0x5bd6430a, 0x2d5d66a2, 0x72ab25ee, 0x5bd3d53f,
        0xa1987db9, 0xddcc9864, 0x9efc7595, 0x468b5da7, 0x4c30a454, 0xed7c31d3, 0xde1afc71, 0x082a027f,
    ]);
    reveal(round_s);
}

proof fn lemma_second_block_round_3()
    ensures
        round_s(seq![
            0xb20bc05cu32, 0xa4bb3718, 0xff5909f8, 0x15b24f3a, 0x5bd6430a, 0x2d5d66a2, 0x72ab25ee, 0x5bd3d53f,
            0xa1987db9, 0xddcc9864, 0x9efc7595, 0x468b5da7, 0x4c30a454, 0xed7c31d3, 0xde1afc71, 0x082a027f,
        ], second_block(), 3) == seq![
            0x64310332u32, 0x4061899c, 0x24bdf453, 0xcd5db4e9, 0x7182fc5e, 0x3854f4c0, 0x40c875bb, 0x1751156a,
            0xeb6a2ccd, 0x125dedd6, 0xb6b84c13, 0x769af92a, 0x2fe40743, 0xcad4ea35, 0xb47f3986, 0xe2fcf3f1,
        ],
{
    assert((0x4c30a454u32 ^ 0x0de20366) == 0x41d2a732
        && ((0x41d2a732u32 >> 16) | (0x41d2a732u32 << 16)) == 0xa73241d2
        && (0x5bd6430au32 ^ 0x48cabf8b) == 0x131cfc81
        && ((0x131cfc81u32 >> 12) | (0x131cfc81u32 << 20)) == 0xc81131cf
        && (0xa73241d2u32 ^ 0xd5f33535) == 0x72c174e7
        && ((0x72c174e7u32 >> 8) | (0x72c174e7u32 << 24)) == 0xe772c174
        && (0xc81131cfu32 ^ 0x303d80ff) == 0xf82cb130
        && ((0xf82cb130u32 >> 7) | (0xf82cb130u32 << 25)) == 0x61f05962
        && (0xed7c31d3u32 ^ 0xd2189dba) == 0x3f64ac69
        && ((0x3f64ac69u32 >> 16) | (0x3f64ac69u32 << 16)) == 0xac693f64
        && (0x2d5d66a2u32 ^ 0x8a35d7c8) == 0xa768b16a
        && ((0xa768b16au32 >> 12) | (0xa768b16au32 << 20)) == 0x16aa768b
        && (0xac693f64u32 ^ 0xe8c31445) == 0x44aa2b21
        && ((0x44aa2b21u32 >> 8) | (0x44aa2b21u32 << 24)) == 0x2144aa2b
        && (0x16aa768bu32 ^ 0xab7a81f3) == 0xbdd0f778
        && ((0xbdd0f778u32 >> 7) | (0xbdd0f778u32 << 25)) == 0xf17ba1ee
        && (0xde1afc71u32 ^ 0x72042fe6) == 0xac1ed397
        && ((0xac1ed397u32 >> 16) | (0xac1ed397u32 << 16)) == 0xd397ac1e
        && (0x72ab25eeu32 ^ 0x729421b3) == 0x003f045d
        && ((0x003f045du32 >> 12) | (0x003f045du32 << 20)) == 0x45d003f0
        && (0xd397ac1eu32 ^ 0xb7d433d6) == 0x64439fc8
        && ((0x64439fc8u32 >> 8) | (0x64439fc8u32 << 24)) == 0xc864439f
        && (0x45d003f0u32 ^ 0x3af86552) == 0x7f2866a2
        && ((0x7f2866a2u32 >> 7) | (0x7f2866a2u32 << 25)) == 0x44fe50cd
        && (0x082a027fu32 ^ 0x71862479) == 0x79ac2606
        && ((0x79ac2606u32 >> 16) | (0x79ac2606u32 << 16)) == 0x260679ac
        && (0x5bd3d53fu32 ^ 0x6c91d753) == 0x3742026c
        && ((0x3742026cu32 >> 12) | (0x3742026cu32 << 20)) == 0x26c37420
        && (0x260679acu32 ^ 0x98499899) == 0xbe4fe135
        && ((0xbe4fe135u32 >> 8) | (0xbe4fe135u32 << 24)) == 0x35be4fe1
        && (0x26c37420u32 ^ 0xa2502734) == 0x84935314
        && ((0x84935314u32 >> 7) | (0x84935314u32 << 25)) == 0x290926a6
        && (0x35be4fe1u32 ^ 0xc76ed723) == 0xf2d098c2
        && ((0xf2d098c2u32 >> 16) | (0xf2d098c2u32 << 16)) == 0x98c2f2d0
        && (0xf17ba1eeu32 ^ 0xd3bb5822) == 0x22c0f9cc
        && ((0x22c0f9ccu32 >> 12) | (0x22c0f9ccu32 << 20)) == 0x9cc22c0f
        && (0x98c2f2d0u32 ^ 0x64310332) == 0xfcf3f1e2
        && ((0xfcf3f1e2u32 >> 8) | (0xfcf3f1e2u32 << 24)) == 0xe2fcf3f1
        && (0x9cc22c0fu32 ^ 0xb6b84c13) == 0x2a7a601c
        && ((0x2a7a601cu32 >> 7) | (0x2a7a601cu32 << 25)) == 0x3854f4c0
        && (0xe772c174u32 ^ 0x2dc16512) == 0xcab3a466
        && ((0xcab3a466u32 >> 16) | (0xcab3a466u32 << 16)) == 0xa466cab3
        && (0x44fe50cdu32 ^ 0x46b6f1e7) == 0x0248a12a
        && ((0x0248a12au32 >> 12) | (0x0248a12au32 << 20)) == 0x12a0248a
        && (0xa466cab3u32 ^ 0x4061899c) == 0xe407432f
        && ((0xe407432fu32 >> 8) | (0xe407432fu32 << 24)) == 0x2fe40743
        && (0x12a0248au32 ^ 0x769af92a) == 0x643adda0
        && ((0x643adda0u32 >> 7) | (0x643adda0u32 << 25)) == 0x40c875bb
        && (0x2144aa2bu32 ^ 0xe0dd5a7c) == 0xc199f057
        && ((0xc199f057u32 >> 16) | (0xc199f057u32 << 16)) == 0xf057c199
        && (0x290926a6u32 ^ 0x20954298) == 0x099c643e
        && ((0x099c643eu32 >> 12) | (0x099c643eu32 << 20)) == 0x43e099c6
        && (0xf057c199u32 ^ 0x24bdf453) == 0xd4ea35ca
        && ((0xd4ea35cau32 >> 8) | (0xd4ea35cau32 << 24)) == 0xcad4ea35
        && (0x43e099c6u32 ^ 0xeb6a2ccd) == 0xa88ab50b
        && ((0xa88ab50bu32 >> 7) | (0xa88ab50bu32 << 25)) == 0x1751156a
        && (0xc864439fu32 ^ 0xfa39f1fb) == 0x325db264
        && ((0x325db264u32 >> 16) | (0x325db264u32 << 16)) == 0xb264325d
        && (0x61f05962u32 ^ 0x5ddeb450) == 0x3c2eed32
        && ((0x3c2eed32u32 >> 12) | (0x3c2eed32u32 << 20)) == 0xd323c2ee
        && (0xb264325du32 ^ 0xcd5db4e9) == 0x7f3986b4
        && ((0x7f3986b4u32 >> 8) | (0x7f3986b4u32 << 24)) == 0xb47f3986
        && (0xd323c2eeu32 ^ 0x125dedd6) == 0xc17e2f38
        && ((0xc17e2f38u32 >> 7) | (0xc17e2f38u32 << 25)) == 0x7182fc5e) by (bit_vector);
    let m = second_block();
    let s = sigma_s(3);
    let v0 = seq![
        0xb20bc05cu32, 0xa4bb3718, 0xff5909f8, 0x15b24f3a, 0x5bd6430a, 0x2d5d66a2, 0x72ab25ee, 0x5bd3d53f,
        0xa1987db9, 0xddcc9864, 0x9efc7595, 0x468b5da7, 0x4c30a454, 0xed7c31d3, 0xde1afc71, 0x082a027f,
    ];
    lemma_mixed(
        v0,
        (0, 4, 8, 12),
        0,
        0,
        (0x0de20366, 0x41d2a732, 0xa73241d2, 0x48cabf8b, 0x131cfc81, 0xc81131cf),
        (0xd5f33535, 0x72c174e7, 0xe772c174, 0x303d80ff, 0xf82cb130, 0x61f05962),
    );
    let v1 = mix_s(v0, 0, 4, 8, 12, m[s[0]], m[s[1]]);
    lemma_mixed(
        v1,
        (1, 5, 9, 13),
        0,
        0,
        (0xd2189dba, 0x3f64ac69, 0xac693f64, 0x8a35d7c8, 0xa768b16a, 0x16aa768b),
        (0xe8c31445, 0x44aa2b21, 0x2144aa2b, 0xab7a81f3, 0xbdd0f778, 0xf17ba1ee),
    );
    let v2 = mix_s(v1, 1, 5, 9, 13, m[s[2]], m[s[3]]);
    lemma_mixed(
        v2,
        (2, 6, 10, 14),
        0,
        0,
        (0x72042fe6, 0xac1ed397, 0xd397ac1e, 0x729421b3, 0x003f045d, 0x45d003f0),
        (0xb7d433d6, 0x64439fc8, 0xc864439f, 0x3af86552, 0x7f2866a2, 0x44fe50cd),
    );
    let v3 = mix_s(v2, 2, 6, 10, 14, m[s[4]], m[s[5]]);
    lemma_mixed(
        v3,
        (3, 7, 11, 15),
        0,
        0,
        (0x71862479, 0x79ac2606, 0x260679ac, 0x6c91d753, 0x3742026c, 0x26c37420),
        (0x98499899, 0xbe4fe135, 0x35be4fe1, 0xa2502734, 0x84935314, 0x290926a6),
    );
    let v4 = mix_s(v3, 3, 7, 11, 15, m[s[6]], m[s[7]]);
    lemma_mixed(
        v4,
        (0, 5, 10, 15),
        0,
        0,
        (0xc76ed723, 0xf2d098c2, 0x98c2f2d0, 0xd3bb5822, 0x22c0f9cc, 0x9cc22c0f),
        (0x64310332, 0xfcf3f1e2, 0xe2fcf3f1, 0xb6b84c13, 0x2a7a601c, 0x3854f4c0),
    );
    let v5 = mix_s(v4, 0, 5, 10, 15, m[s[8]], m[s[9]]);
    lemma_mixed(
        v5,
        (1, 6, 11, 12),
        0,
        0,
        (0x2dc16512, 0xcab3a466, 0xa466cab3, 0x46b6f1e7, 0x0248a12a, 0x12a0248a),
        (0x4061899c, 0xe407432f, 0x2fe40743, 0x769af92a, 0x643adda0, 0x40c875bb),
    );
    let v6 = mix_s(v5, 1, 6, 11, 12, m[s[10]], m[s[11]]);
    lemma_mixed(
        v6,
        (2, 7, 8, 13),
        0,
        17,
        (0xe0dd5a7c, 0xc199f057, 0xf057c199, 0x20954298, 0x099c643e, 0x43e099c6),
        (0x24bdf453, 0xd4ea35ca, 0xcad4ea35, 0xeb6a2ccd, 0xa88ab50b, 0x1751156a),
    );
    let v7 = mix_s(v6, 2, 7, 8, 13, m[s[12]], m[s[13]]);
    lemma_mixed(
        v7,
        (3, 4, 9, 14),
        0,
        0,
        (0xfa39f1fb, 0x325db264, 0xb264325d, 0x5ddeb450, 0x3c2eed32, 0xd323c2ee),
        (0xcd5db4e9, 0x7f3986b4, 0xb47f3986, 0x125dedd6, 0xc17e2f38, 0x7182fc5e),
    );
    let v8 = mix_s(v7, 3, 4, 9, 14, m[s[14]], m[s[15]]);
    assert(v8 =~= seq![
        0x64310332u32, 0x4061899c, 0x24bdf453, 0xcd5db4e9, 0x7182fc5e, 0x3854f4c0, 0x40c875bb, 0x1751156a,
        0xeb6a2ccd, 0x125dedd6, 0xb6b84c13, 0x769af92a, 0x2fe40743, 0xcad4ea35, 0xb47f3986, 0xe2fcf3f1,
    ]);
    reveal(round_s);
}

proof fn lemma_second_block_round_4()
    ensures
        round_s(seq![
            0x64310332u32, 0x4061899c, 0x24bdf453, 0xcd5db4e9, 0x7182fc5e, 0x3854f4c0, 0x40c875bb, 0x1751156a,
            0xeb6a2ccd, 0x125dedd6, 0xb6b84c13, 0x769af92a, 0x2fe40743, 0xcad4ea35, 0xb47f3986, 0xe2fcf3f1,
        ], second_block(), 4) == seq![
            0xab097febu32, 0x4fd67a7a, 0xe5fc0fc0, 0xb6e67177, 0x182fb88d, 0xbcead1f2, 0xe14629c7, 0x4a1b656a,
            0x84297aa1, 0x08a4bce6, 0xd9682969, 0x70c87187, 0xf6297438, 0xfc8c15a0, 0x69b228bb, 0x5cbffae3,
        ],
{
    assert((0x2fe40743u32 ^ 0xd5b3ff90) == 0xfa57f8d3
        && ((0xfa57f8d3u32 >> 16) | (0xfa57f8d3u32 << 16)) == 0xf8d3fa57
        && (0x7182fc5eu32 ^ 0xe43e2724) == 0x95bcdb7a
        && ((0x95bcdb7au32 >> 12) | (0x95bcdb7au32 << 20)) == 0xb7a95bcd
        && (0xf8d3fa57u32 ^ 0x8d5d5b6e) == 0x758ea139
        && ((0x758ea139u32 >> 8) | (0x758ea139u32 << 24)) == 0x39758ea1
        && (0xb7a95bcdu32 ^ 0x1db3b5c5) == 0xaa1aee08
        && ((0xaa1aee08u32 >> 7) | (0xaa1aee08u32 << 25)) == 0x115435dc
        && (0xcad4ea35u32 ^ 0x78b67e5c) == 0xb2629469
        && ((0xb2629469u32 >> 16) | (0xb2629469u32 << 16)) == 0x9469b262
        && (0x3854f4c0u32 ^ 0xa6c7a038) == 0x9e9354f8
        && ((0x9e9354f8u32 >> 12) | (0x9e9354f8u32 << 20)) == 0x4f89e935
        && (0x9469b262u32 ^ 0xc8406791) == 0x5c29d5f3
        && ((0x5c29d5f3u32 >> 8) | (0x5c29d5f3u32 << 24)) == 0xf35c29d5
        && (0x4f89e935u32 ^ 0x9a23ca0d) == 0xd5aa2338
        && ((0xd5aa2338u32 >> 7) | (0xd5aa2338u32 << 25)) == 0x71ab5446
        && (0xb47f3986u32 ^ 0x65866a0e) == 0xd1f95388
        && ((0xd1f95388u32 >> 16) | (0xd1f95388u32 << 16)) == 0x5388d1f9
        && (0x40c875bbu32 ^ 0x0a411e0c) == 0x4a896bb7
        && ((0x4a896bb7u32 >> 12) | (0x4a896bb7u32 << 20)) == 0xbb74a896
        && (0x5388d1f9u32 ^ 0x20fb12a4) == 0x7373c35d
        && ((0x7373c35du32 >> 8) | (0x7373c35du32 << 24)) == 0x5d7373c3
        && (0xbb74a896u32 ^ 0x67b491cf) == 0xdcc03959
        && ((0xdcc03959u32 >> 7) | (0xdcc03959u32 << 25)) == 0xb3b98072
        && (0xe2fcf3f1u32 ^ 0xe4aeca53) == 0x065239a2
        && ((0x065239a2u32 >> 16) | (0x065239a2u32 << 16)) == 0x39a20652
        && (0x1751156au32 ^ 0xb03cff7c) == 0xa76dea16
        && ((0xa76dea16u32 >> 12) | (0xa76dea16u32 << 20)) == 0xa16a76de
        && (0x39a20652u32 ^ 0x86194131) == 0xbfbb4763
        && ((0xbfbb4763u32 >> 8) | (0xbfbb4763u32 << 24)) == 0x63bfbb47
        && (0xa16a76deu32 ^ 0x13fcbac3) == 0xb296cc1d
        && ((0xb296cc1du32 >> 7) | (0xb296cc1du32 << 25)) == 0x3b652d98
        && (0x63bfbb47u32 ^ 0xff08afb4) == 0x9cb714f3
        && ((0x9cb714f3u32 >> 16) | (0x9cb714f3u32 << 16)) == 0x14f39cb7
        && (0x71ab5446u32 ^ 0x7ca82e86) == 0x0d037ac0
        && ((0x0d037ac0u32 >> 12) | (0x0d037ac0u32 << 20)) == 0xac00d037
        && (0x14f39cb7u32 ^ 0xab097feb) == 0xbffae35c
        && ((0xbffae35cu32 >> 8) | (0xbffae35cu32 << 24)) == 0x5cbffae3
        && (0xac00d037u32 ^ 0xd9682969) == 0x7568f95e
        && ((0x7568f95eu32 >> 7) | (0x7568f95eu32 << 25)) == 0xbcead1f2
        && (0x39758ea1u32 ^ 0x7bf9e803) == 0x428c66a2
        && ((0x428c66a2u32 >> 16) | (0x428c66a2u32 << 16)) == 0x66a2428c
        && (0xb3b98072u32 ^ 0x7a9efd4f) == 0xc9277d3d
        && ((0xc9277d3du32 >> 12) | (0xc9277d3du32 << 20)) == 0xd3dc9277
        && (0x66a2428cu32 ^ 0x4fd67a7a) == 0x297438f6
        && ((0x297438f6u32 >> 8) | (0x297438f6u32 << 24)) == 0xf6297438
        && (0xd3dc9277u32 ^ 0x70c87187) == 0xa314e3f0
        && ((0xa314e3f0u32 >> 7) | (0xa314e3f0u32 << 25)) == 0xe14629c7
        && (0xf35c29d5u32 ^ 0x5c60403c) == 0xaf3c69e9
        && ((0xaf3c69e9u32 >> 16) | (0xaf3c69e9u32 << 16)) == 0x69e9af3c
        && (0x3b652d98u32 ^ 0x879d6501) == 0xbcf84899
        && ((0xbcf84899u32 >> 12) | (0xbcf84899u32 << 20)) == 0x899bcf84
        && (0x69e9af3cu32 ^ 0xe5fc0fc0) == 0x8c15a0fc
        && ((0x8c15a0fcu32 >> 8) | (0x8c15a0fcu32 << 24)) == 0xfc8c15a0
        && (0x899bcf84u32 ^ 0x84297aa1) == 0x0db2b525
        && ((0x0db2b525u32 >> 7) | (0x0db2b525u32 << 25)) == 0x4a1b656a
        && (0x5d7373c3u32 ^ 0x976d770d) == 0xca1e04ce
        && ((0xca1e04ceu32 >> 16) | (0xca1e04ceu32 << 16)) == 0x04ceca1e
        && (0x115435dcu32 ^ 0x9ef2942b) == 0x8fa6a1f7
        && ((0x8fa6a1f7u32 >> 12) | (0x8fa6a1f7u32 << 20)) == 0x1f78fa6a
        && (0x04ceca1eu32 ^ 0xb6e67177) == 0xb228bb69
        && ((0xb228bb69u32 >> 8) | (0xb228bb69u32 << 24)) == 0x69b228bb
        && (0x1f78fa6au32 ^ 0x08a4bce6) == 0x17dc468c
        && ((0x17dc468cu32 >> 7) | (0x17dc468cu32 << 25)) == 0x182fb88d) by (bit_vector);
    let m = second_block();
    let s = sigma_s(4);
    let v0 = seq![
        0x64310332u32, 0x4061899c, 0x24bdf453, 0xcd5db4e9, 0x7182fc5e, 0x3854f4c0, 0x40c875bb, 0x1751156a,
        0xeb6a2ccd, 0x125dedd6, 0xb6b84c13, 0x769af92a, 0x2fe40743, 0xcad4ea35, 0xb47f3986, 0xe2fcf3f1,
    ];
    lemma_mixed(
        v0,
        (0, 4, 8, 12),
        0,
        17,
        (0xd5b3ff90, 0xfa57f8d3, 0xf8d3fa57, 0xe43e2724, 0x95bcdb7a, 0xb7a95bcd),
        (0x8d5d5b6e, 0x758ea139, 0x39758ea1, 0x1db3b5c5, 0xaa1aee08, 0x115435dc),
    );
    let v1 = mix_s(v0, 0, 4, 8, 12, m[s[0]], m[s[1]]);
    lemma_mixed(
        v1,
        (1, 5, 9, 13),
        0,
        0,
        (0x78b67e5c, 0xb2629469, 0x9469b262, 0xa6c7a038, 0x9e9354f8, 0x4f89e935),
        (0xc8406791, 0x5c29d5f3, 0xf35c29d5, 0x9a23ca0d, 0xd5aa2338, 0x71ab5446),
    );
    let v2 = mix_s(v1, 1, 5, 9, 13, m[s[2]], m[s[3]]);
    lemma_mixed(
        v2,
        (2, 6, 10, 14),
        0,
        0,
        (0x65866a0e, 0xd1f95388, 0x5388d1f9, 0x0a411e0c, 0x4a896bb7, 0xbb74a896),
        (0x20fb12a4, 0x7373c35d, 0x5d7373c3, 0x67b491cf, 0xdcc03959, 0xb3b98072),
    );
    let v3 = mix_s(v2, 2, 6, 10, 14, m[s[4]], m[s[5]]);
    lemma_mixed(
        v3,
        (3, 7, 11, 15),
        0,
        0,
        (0xe4aeca53, 0x065239a2, 0x39a20652, 0xb03cff7c, 0xa76dea16, 0xa16a76de),
        (0x86194131, 0xbfbb4763, 0x63bfbb47, 0x13fcbac3, 0xb296cc1d, 0x3b652d98),
    );
    let v4 = mix_s(v3, 3, 7, 11, 15, m[s[6]], m[s[7]]);
    lemma_mixed(
        v4,
        (0, 5, 10, 15),
        0,
        0,
        (0xff08afb4, 0x9cb714f3, 0x14f39cb7, 0x7ca82e86, 0x0d037ac0, 0xac00d037),
        (0xab097feb, 0xbffae35c, 0x5cbffae3, 0xd9682969, 0x7568f95e, 0xbcead1f2),
    );
    let v5 = mix_s(v4, 0, 5, 10, 15, m[s[8]], m[s[9]]);
    lemma_mixed(
        v5,
        (1, 6, 11, 12),
        0,
        0,
        (0x7bf9e803, 0x428c66a2, 0x66a2428c, 0x7a9efd4f, 0xc9277d3d, 0xd3dc9277),
        (0x4fd67a7a, 0x297438f6, 0xf6297438, 0x70c87187, 0xa314e3f0, 0xe14629c7),
    );
    let v6 = mix_s(v5, 1, 6, 11, 12, m[s[10]], m[s[11]]);
    lemma_mixed(
        v6,
        (2, 7, 8, 13),
        0,
        0,
        (0x5c60403c, 0xaf3c69e9, 0x69e9af3c, 0x879d6501, 0xbcf84899, 0x899bcf84),
        (0xe5fc0fc0, 0x8c15a0fc, 0xfc8c15a0, 0x84297aa1, 0x0db2b525, 0x4a1b656a),
    );
    let v7 = mix_s(v6, 2, 7, 8, 13, m[s[12]], m[s[13]]);
    lemma_mixed(
        v7,
        (3, 4, 9, 14),
        0,
        0,
        (0x976d770d, 0xca1e04ce, 0x04ceca1e, 0x9ef2942b, 0x8fa6a1f7, 0x1f78fa6a),
        (0xb6e67177, 0xb228bb69, 0x69b228bb, 0x08a4bce6, 0x17dc468c, 0x182fb88d),
    );
    let v8 = mix_s(v7, 3, 4, 9, 14, m[s[14]], m[s[15]]);
    assert(v8 =~= seq![
        0xab097febu32, 0x4fd67a7a, 0xe5fc0fc0, 0xb6e67177, 0x182fb88d, 0xbcead1f2, 0xe14629c7, 0x4a1b656a,
        0x84297aa1, 0x08a4bce6, 0xd9682969, 0x70c87187, 0xf6297438, 0xfc8c15a0, 0x69b228bb, 0x5cbffae3,
    ]);
    reveal(round_s);
}

proof fn lemma_second_block_round_5()
    ensures
        round_s(seq![
            0xab097febu32, 0x4fd67a7a, 0xe5fc0fc0, 0xb6e67177, 0x182fb88d, 0xbcead1f2, 0xe14629c7, 0x4a1b656a,
            0x84297aa1, 0x08a4bce6, 0xd9682969, 0x70c87187, 0xf6297438, 0xfc8c15a0, 0x69b228bb, 0x5cbffae3,
        ], second_block(), 5) == seq![
            0xb673e3b5u32, 0xb563e374, 0xa5747418, 0x3bc0afa9, 0x865d97f0, 0xb87b6bfc, 0x9075ec4c, 0xefff0f20,
            0x2e57be28, 0xf126e28f, 0xde81b6d6, 0xc55b50cf, 0xb99c079f, 0x3df30bc9, 0x8aae4573, 0x05d04675,
        ],
{
    assert((0xf6297438u32 ^ 0xc3393878) == 0x35104c40
        && ((0x35104c40u32 >> 16) | (0x35104c40u32 << 16)) == 0x4c403510
        && (0x182fb88du32 ^ 0xd069afb1) == 0xc846173c
        && ((0xc846173cu32 >> 12) | (0xc846173cu32 << 20)) == 0x73cc8461
        && (0x4c403510u32 ^ 0x3705bcd9) == 0x7b4589c9
        && ((0x7b4589c9u32 >> 8) | (0x7b4589c9u32 << 24)) == 0xc97b4589
        && (0x73cc8461u32 ^ 0x99e4f53a) == 0xea28715b
        && ((0xea28715bu32 >> 7) | (0xea28715bu32 << 25)) == 0xb7d450e2
        && (0xfc8c15a0u32 ^ 0x0cc14c6c) == 0xf04d59cc
        && ((0xf04d59ccu32 >> 16) | (0xf04d59ccu32 << 16)) == 0x59ccf04d
        && (0xbcead1f2u32 ^ 0x6271ad33) == 0xde9b7cc1
        && ((0xde9b7cc1u32 >> 12) | (0xde9b7cc1u32 << 20)) == 0xcc1de9b7
        && (0x59ccf04du32 ^ 0xd8df3623) == 0x8113c66e
        && ((0x8113c66eu32 >> 8) | (0x8113c66eu32 << 24)) == 0x6e8113c6
        && (0xcc1de9b7u32 ^ 0xd0f2c0f9) == 0x1cef294e
        && ((0x1cef294eu32 >> 7) | (0x1cef294eu32 << 25)) == 0x9c39de52
        && (0x69b228bbu32 ^ 0xc7423998) == 0xaef01123
        && ((0xaef01123u32 >> 16) | (0xaef01123u32 << 16)) == 0x1123aef0
        && (0xe14629c7u32 ^ 0xea8bd859) == 0x0bcdf19e
        && ((0x0bcdf19eu32 >> 12) | (0x0bcdf19eu32 << 20)) == 0x19e0bcdf
        && (0x1123aef0u32 ^ 0xe122f677) == 0xf0015887
        && ((0xf0015887u32 >> 8) | (0xf0015887u32 << 24)) == 0x87f00158
        && (0x19e0bcdfu32 ^ 0x727bd9b1) == 0x6b9b656e
        && ((0x6b9b656eu32 >> 7) | (0x6b9b656eu32 << 25)) == 0xdcd736ca
        && (0x5cbffae3u32 ^ 0x0101d6e1) == 0x5dbe2c02
        && ((0x5dbe2c02u32 >> 16) | (0x5dbe2c02u32 << 16)) == 0x2c025dbe
        && (0x4a1b656au32 ^ 0x9ccacf45) == 0xd6d1aa2f
        && ((0xd6d1aa2fu32 >> 12) | (0xd6d1aa2fu32 << 20)) == 0xa2fd6d1a
        && (0x2c025dbeu32 ^ 0xa3ff43fb) == 0x8ffd1e45
        && ((0x8ffd1e45u32 >> 8) | (0x8ffd1e45u32 << 24)) == 0x458ffd1e
        && (0xa2fd6d1au32 ^ 0xe25acc63) == 0x40a7a179
        && ((0x40a7a179u32 >> 7) | (0x40a7a179u32 << 25)) == 0xf2814f42
        && (0x458ffd1eu32 ^ 0xd33f9b2b) == 0x96b06635
        && ((0x96b06635u32 >> 16) | (0x96b06635u32 << 16)) == 0x663596b0
        && (0x9c39de52u32 ^ 0xd8b17061) == 0x4488ae33
        && ((0x4488ae33u32 >> 12) | (0x4488ae33u32 << 20)) == 0xe334488a
        && (0x663596b0u32 ^ 0xb673e3b5) == 0xd0467505
        && ((0xd0467505u32 >> 8) | (0xd0467505u32 << 24)) == 0x05d04675
        && (0xe334488au32 ^ 0xde81b6d6) == 0x3db5fe5c
        && ((0x3db5fe5cu32 >> 7) | (0x3db5fe5cu32 << 25)) == 0xb87b6bfc
        && (0xc97b4589u32 ^ 0xb5b66ced) == 0x7ccd2964
        && ((0x7ccd2964u32 >> 16) | (0x7ccd2964u32 << 16)) == 0x29647ccd
        && (0xdcd736cau32 ^ 0x0bbf4930) == 0xd7687ffa
        && ((0xd7687ffau32 >> 12) | (0xd7687ffau32 << 20)) == 0xffad7687
        && (0x29647ccdu32 ^ 0xb563e374) == 0x9c079fb9
        && ((0x9c079fb9u32 >> 8) | (0x9c079fb9u32 << 24)) == 0xb99c079f
        && (0xffad7687u32 ^ 0xc55b50cf) == 0x3af62648
        && ((0x3af62648u32 >> 7) | (0x3af62648u32 << 25)) == 0x9075ec4c
        && (0x6e8113c6u32 ^ 0xd3a445b9) == 0xbd25567f
        && ((0xbd25567fu32 >> 16) | (0xbd25567fu32 << 16)) == 0x567fbd25
        && (0xf2814f42u32 ^ 0xf064b25f) == 0x02e5fd1d
        && ((0x02e5fd1du32 >> 12) | (0x02e5fd1du32 << 20)) == 0xd1d02e5f
        && (0x567fbd25u32 ^ 0xa5747418) == 0xf30bc93d
        && ((0xf30bc93du32 >> 8) | (0xf30bc93du32 << 24)) == 0x3df30bc9
        && (0xd1d02e5fu32 ^ 0x2e57be28) == 0xff879077
        && ((0xff879077u32 >> 7) | (0xff879077u32 << 25)) == 0xefff0f20
        && (0x87f00158u32 ^ 0x5bd394dd) == 0xdc239585
        && ((0xdc239585u32 >> 16) | (0xdc239585u32 << 16)) == 0x9585dc23
        && (0xb7d450e2u32 ^ 0x66789d1c) == 0xd1accdfe
        && ((0xd1accdfeu32 >> 12) | (0xd1accdfeu32 << 20)) == 0xdfed1acc
        && (0x9585dc23u32 ^ 0x3bc0afa9) == 0xae45738a
        && ((0xae45738au32 >> 8) | (0xae45738au32 << 24)) == 0x8aae4573
        && (0xdfed1accu32 ^ 0xf126e28f) == 0x2ecbf843
        && ((0x2ecbf843u32 >> 7) | (0x2ecbf843u32 << 25)) == 0x865d97f0) by (bit_vector);
    let m = second_block();
    let s = sigma_s(5);
    let v0 = seq![
        0xab097febu32, 0x4fd67a7a, 0xe5fc0fc0, 0xb6e67177, 0x182fb88d, 0xbcead1f2, 0xe14629c7, 0x4a1b656a,
        0x84297aa1, 0x08a4bce6, 0xd9682969, 0x70c87187, 0xf6297438, 0xfc8c15a0, 0x69b228bb, 0x5cbffae3,
    ];
    lemma_mixed(
        v0,
        (0, 4, 8, 12),
        0,
        0,
        (0xc3393878, 0x35104c40, 0x4c403510, 0xd069afb1, 0xc846173c, 0x73cc8461),
        (0x3705bcd9, 0x7b4589c9, 0xc97b4589, 0x99e4f53a, 0xea28715b, 0xb7d450e2),
    );
    let v1 = mix_s(v0, 0, 4, 8, 12, m[s[0]], m[s[1]]);
    lemma_mixed(
        v1,
        (1, 5, 9, 13),
        0,
        0,
        (0x0cc14c6c, 0xf04d59cc, 0x59ccf04d, 0x6271ad33, 0xde9b7cc1, 0xcc1de9b7),
        (0xd8df3623, 0x8113c66e, 0x6e8113c6, 0xd0f2c0f9, 0x1cef294e, 0x9c39de52),
    );
    let v2 = mix_s(v1, 1, 5, 9, 13, m[s[2]], m[s[3]]);
    lemma_mixed(
        v2,
        (2, 6, 10, 14),
        17,
        0,
        (0xc7423998, 0xaef01123, 0x1123aef0, 0xea8bd859, 0x0bcdf19e, 0x19e0bcdf),
        (0xe122f677, 0xf0015887, 0x87f00158, 0x727bd9b1, 0x6b9b656e, 0xdcd736ca),
    );
    let v3 = mix_s(v2, 2, 6, 10, 14, m[s[4]], m[s[5]]);
    lemma_mixed(
        v3,
        (3, 7, 11, 15),
        0,
        0,
        (0x0101d6e1, 0x5dbe2c02, 0x2c025dbe, 0x9ccacf45, 0xd6d1aa2f, 0xa2fd6d1a),
        (0xa3ff43fb, 0x8ffd1e45, 0x458ffd1e, 0xe25acc63, 0x40a7a179, 0xf2814f42),
    );
    let v4 = mix_s(v3, 3, 7, 11, 15, m[s[6]], m[s[7]]);
    lemma_mixed(
        v4,
        (0, 5, 10, 15),
        0,
        0,
        (0xd33f9b2b, 0x96b06635, 0x663596b0, 0xd8b17061, 0x4488ae33, 0xe334488a),
        (0xb673e3b5, 0xd0467505, 0x05d04675, 0xde81b6d6, 0x3db5fe5c, 0xb87b6bfc),
    );
    let v5 = mix_s(v4, 0, 5, 10, 15, m[s[8]], m[s[9]]);
    lemma_mixed(
        v5,
        (1, 6, 11, 12),
        0,
        0,
        (0xb5b66ced, 0x7ccd2964, 0x29647ccd, 0x0bbf4930, 0xd7687ffa, 0xffad7687),
        (0xb563e374, 0x9c079fb9, 0xb99c079f, 0xc55b50cf, 0x3af62648, 0x9075ec4c),
    );
    let v6 = mix_s(v5, 1, 6, 11, 12, m[s[10]], m[s[11]]);
    lemma_mixed(
        v6,
        (2, 7, 8, 13),
        0,
        0,
        (0xd3a445b9, 0xbd25567f, 0x567fbd25, 0xf064b25f, 0x02e5fd1d, 0xd1d02e5f),
        (0xa5747418, 0xf30bc93d, 0x3df30bc9, 0x2e57be28, 0xff879077, 0xefff0f20),
    );
    let v7 = mix_s(v6, 2, 7, 8, 13, m[s[12]], m[s[13]]);
    lemma_mixed(
        v7,
        (3, 4, 9, 14),
        0,
        0,
        (0x5bd394dd, 0xdc239585, 0x9585dc23, 0x66789d1c, 0xd1accdfe, 0xdfed1acc),
        (0x3bc0afa9, 0xae45738a, 0x8aae4573, 0xf126e28f, 0x2ecbf843, 0x865d97f0),
    );
    let v8 = mix_s(v7, 3, 4, 9, 14, m[s[14]], m[s[15]]);
    assert(v8 =~= seq![
        0xb673e3b5u32, 0xb563e374, 0xa5747418, 0x3bc0afa9, 0x865d97f0, 0xb87b6bfc, 0x9075ec4c, 0xefff0f20,
        0x2e57be28, 0xf126e28f, 0xde81b6d6, 0xc55b50cf, 0xb99c079f, 0x3df30bc9, 0x8aae4573, 0x05d04675,
    ]);
    reveal(round_s);
}

proof fn lemma_second_block_round_6()
    ensures
        round_s(seq![
            0xb673e3b5u32, 0xb563e374, 0xa5747418, 0x3bc0afa9, 0x865d97f0, 0xb87b6bfc, 0x9075ec4c, 0xefff0f20,
            0x2e57be28, 0xf126e28f, 0xde81b6d6, 0xc55b50cf, 0xb99c079f, 0x3df30bc9, 0x8aae4573, 0x05d04675,
        ], second_block(), 6) == seq![
            0x6fb2d88au32, 0x1ec73c14, 0x5d73b5a5, 0x68a151c3, 0xd6604f88, 0xd68bc6a2, 0x301251af, 0x5f03e9a0,
            0x95dcd344, 0x8b71057d, 0xa2d48157, 0x3df5c27e, 0x0726243a, 0xa80e30f5, 0x77bc2c95, 0x247f0f6f,
        ],
{
    assert((0xb99c079fu32 ^ 0x3cd17ba5) == 0x854d7c3a
        && ((0x854d7c3au32 >> 16) | (0x854d7c3au32 << 16)) == 0x7c3a854d
        && (0x865d97f0u32 ^ 0xaa924375) == 0x2ccfd485
        && ((0x2ccfd485u32 >> 12) | (0x2ccfd485u32 << 20)) == 0x4852ccfd
        && (0x7c3a854du32 ^ 0x852448a2) == 0xf91ecdef
        && ((0xf91ecdefu32 >> 8) | (0xf91ecdefu32 << 24)) == 0xeff91ecd
        && (0x4852ccfdu32 ^ 0x9a8b6242) == 0xd2d9aebf
        && ((0xd2d9aebfu32 >> 7) | (0xd2d9aebfu32 << 25)) == 0x7fa5b35d
        && (0x3df30bc9u32 ^ 0x6ddf4f70) == 0x502c44b9
        && ((0x502c44b9u32 >> 16) | (0x502c44b9u32 << 16)) == 0x44b9502c
        && (0xb87b6bfcu32 ^ 0x35e032bb) == 0x8d9b5947
        && ((0x8d9b5947u32 >> 12) | (0x8d9b5947u32 << 20)) == 0x9478d9b5
        && (0x44b9502cu32 ^ 0x02582925) == 0x46e17909
        && ((0x46e17909u32 >> 8) | (0x46e17909u32 << 24)) == 0x0946e179
        && (0x9478d9b5u32 ^ 0x3f271434) == 0xab5fcd81
        && ((0xab5fcd81u32 >> 7) | (0xab5fcd81u32 << 25)) == 0x0356bf9b
        && (0x8aae4573u32 ^ 0x35ea6064) == 0xbf442517
        && ((0xbf442517u32 >> 16) | (0xbf442517u32 << 16)) == 0x2517bf44
        && (0x9075ec4cu32 ^ 0x0399761a) == 0x93ec9a56
        && ((0x93ec9a56u32 >> 12) | (0x93ec9a56u32 << 20)) == 0xa5693ec9
        && (0x2517bf44u32 ^ 0xdb539f2d) == 0xfe442069
        && ((0xfe442069u32 >> 8) | (0xfe442069u32 << 24)) == 0x69fe4420
        && (0xa5693ec9u32 ^ 0x6d97ba3a) == 0xc8fe84f3
        && ((0xc8fe84f3u32 >> 7) | (0xc8fe84f3u32 << 25)) == 0xe791fd09
        && (0x05d04675u32 ^ 0x2bbfbec9) == 0x2e6ff8bc
        && ((0x2e6ff8bcu32 >> 16) | (0x2e6ff8bcu32 << 16)) == 0xf8bc2e6f
        && (0xefff0f20u32 ^ 0xbe177f3e) == 0x51e8701e
        && ((0x51e8701eu32 >> 12) | (0x51e8701eu32 << 20)) == 0x01e51e87
        && (0xf8bc2e6fu32 ^ 0x2da4dd50) == 0xd518f33f
        && ((0xd518f33fu32 >> 8) | (0xd518f33fu32 << 24)) == 0x3fd518f3
        && (0x01e51e87u32 ^ 0xfdec9831) == 0xfc0986b6
        && ((0xfc0986b6u32 >> 7) | (0xfc0986b6u32 << 25)) == 0x6df8130d
        && (0x3fd518f3u32 ^ 0x887b084e) == 0xb7ae10bd
        && ((0xb7ae10bdu32 >> 16) | (0xb7ae10bdu32 << 16)) == 0x10bdb7ae
        && (0x0356bf9bu32 ^ 0x7e5571e8) == 0x7d03ce73
        && ((0x7d03ce73u32 >> 12) | (0x7d03ce73u32 << 20)) == 0xe737d03c
        && (0x10bdb7aeu32 ^ 0x6fb2d88a) == 0x7f0f6f24
        && ((0x7f0f6f24u32 >> 8) | (0x7f0f6f24u32 << 24)) == 0x247f0f6f
        && (0xe737d03cu32 ^ 0xa2d48157) == 0x45e3516b
        && ((0x45e3516bu32 >> 7) | (0x45e3516bu32 << 25)) == 0xd68bc6a2
        && (0xeff91ecdu32 ^ 0xe9ea262e) == 0x061338e3
        && ((0x061338e3u32 >> 16) | (0x061338e3u32 << 16)) == 0x38e30613
        && (0xe791fd09u32 ^ 0x36cf9e44) == 0xd15e634d
        && ((0xd15e634du32 >> 12) | (0xd15e634du32 << 20)) == 0x34dd15e6
        && (0x38e30613u32 ^ 0x1ec73c14) == 0x26243a07
        && ((0x26243a07u32 >> 8) | (0x26243a07u32 << 24)) == 0x0726243a
        && (0x34dd15e6u32 ^ 0x3df5c27e) == 0x0928d798
        && ((0x0928d798u32 >> 7) | (0x0928d798u32 << 25)) == 0x301251af
        && (0x0946e179u32 ^ 0x494bb23a) == 0x400d5343
        && ((0x400d5343u32 >> 16) | (0x400d5343u32 << 16)) == 0x5343400d
        && (0x6df8130du32 ^ 0xedcea24f) == 0x8036b142
        && ((0x8036b142u32 >> 12) | (0x8036b142u32 << 20)) == 0x1428036b
        && (0x5343400du32 ^ 0x5d73b5a5) == 0x0e30f5a8
        && ((0x0e30f5a8u32 >> 8) | (0x0e30f5a8u32 << 24)) == 0xa80e30f5
        && (0x1428036bu32 ^ 0x95dcd344) == 0x81f4d02f
        && ((0x81f4d02fu32 >> 7) | (0x81f4d02fu32 << 25)) == 0x5f03e9a0
        && (0x69fe4420u32 ^ 0xad4a90ad) == 0xc4b4d48d
        && ((0xc4b4d48du32 >> 16) | (0xc4b4d48du32 << 16)) == 0xd48dc4b4
        && (0x7fa5b35du32 ^ 0x13b4d8e8) == 0x6c116bb5
        && ((0x6c116bb5u32 >> 12) | (0x6c116bb5u32 << 20)) == 0xbb56c116
        && (0xd48dc4b4u32 ^ 0x68a151c3) == 0xbc2c9577
        && ((0xbc2c9577u32 >> 8) | (0xbc2c9577u32 << 24)) == 0x77bc2c95
        && (0xbb56c116u32 ^ 0x8b71057d) == 0x3027c46b
        && ((0x3027c46bu32 >> 7) | (0x3027c46bu32 << 25)) == 0xd6604f88) by (bit_vector);
    let m = second_block();
    let s = sigma_s(6);
    let v0 = seq![
        0xb673e3b5u32, 0xb563e374, 0xa5747418, 0x3bc0afa9, 0x865d97f0, 0xb87b6bfc, 0x9075ec4c, 0xefff0f20,
        0x2e57be28, 0xf126e28f, 0xde81b6d6, 0xc55b50cf, 0xb99c079f, 0x3df30bc9, 0x8aae4573, 0x05d04675,
    ];
    lemma_mixed(
        v0,
        (0, 4, 8, 12),
        0,
        0,
        (0x3cd17ba5, 0x854d7c3a, 0x7c3a854d, 0xaa924375, 0x2ccfd485, 0x4852ccfd),
        (0x852448a2, 0xf91ecdef, 0xeff91ecd, 0x9a8b6242, 0xd2d9aebf, 0x7fa5b35d),
    );
    let v1 = mix_s(v0, 0, 4, 8, 12, m[s[0]], m[s[1]]);
    lemma_mixed(
        v1,
        (1, 5, 9, 13),
        0,
        0,
        (0x6ddf4f70, 0x502c44b9, 0x44b9502c, 0x35e032bb, 0x8d9b5947, 0x9478d9b5),
        (0x02582925, 0x46e17909, 0x0946e179, 0x3f271434, 0xab5fcd81, 0x0356bf9b),
    );
    let v2 = mix_s(v1, 1, 5, 9, 13, m[s[2]], m[s[3]]);
    lemma_mixed(
        v2,
        (2, 6, 10, 14),
        0,
        0,
        (0x35ea6064, 0xbf442517, 0x2517bf44, 0x0399761a, 0x93ec9a56, 0xa5693ec9),
        (0xdb539f2d, 0xfe442069, 0x69fe4420, 0x6d97ba3a, 0xc8fe84f3, 0xe791fd09),
    );
    let v3 = mix_s(v2, 2, 6, 10, 14, m[s[4]], m[s[5]]);
    lemma_mixed(
        v3,
        (3, 7, 11, 15),
        0,
        0,
        (0x2bbfbec9, 0x2e6ff8bc, 0xf8bc2e6f, 0xbe177f3e, 0x51e8701e, 0x01e51e87),
        (0x2da4dd50, 0xd518f33f, 0x3fd518f3, 0xfdec9831, 0xfc0986b6, 0x6df8130d),
    );
    let v4 = mix_s(v3, 3, 7, 11, 15, m[s[6]], m[s[7]]);
    lemma_mixed(
        v4,
        (0, 5, 10, 15),
        17,
        0,
        (0x887b084e, 0xb7ae10bd, 0x10bdb7ae, 0x7e5571e8, 0x7d03ce73, 0xe737d03c),
        (0x6fb2d88a, 0x7f0f6f24, 0x247f0f6f, 0xa2d48157, 0x45e3516b, 0xd68bc6a2),
    );
    let v5 = mix_s(v4, 0, 5, 10, 15, m[s[8]], m[s[9]]);
    lemma_mixed(
        v5,
        (1, 6, 11, 12),
        0,
        0,
        (0xe9ea262e, 0x061338e3, 0x38e30613, 0x36cf9e44, 0xd15e634d, 0x34dd15e6),
        (0x1ec73c14, 0x26243a07, 0x0726243a, 0x3df5c27e, 0x0928d798, 0x301251af),
    );
    let v6 = mix_s(v5, 1, 6, 11, 12, m[s[10]], m[s[11]]);
    lemma_mixed(
        v6,
        (2, 7, 8, 13),
        0,
        0,
        (0x494bb23a, 0x400d5343, 0x5343400d, 0xedcea24f, 0x8036b142, 0x1428036b),
        (0x5d73b5a5, 0x0e30f5a8, 0xa80e30f5, 0x95dcd344, 0x81f4d02f, 0x5f03e9a0),
    );
    let v7 = mix_s(v6, 2, 7, 8, 13, m[s[12]], m[s[13]]);
    lemma_mixed(
        v7,
        (3, 4, 9, 14),
        0,
        0,
        (0xad4a90ad, 0xc4b4d48d, 0xd48dc4b4, 0x13b4d8e8, 0x6c116bb5, 0xbb56c116),
        (0x68a151c3, 0xbc2c9577, 0x77bc2c95, 0x8b71057d, 0x3027c46b, 0xd6604f88),
    );
    let v8 = mix_s(v7, 3, 4, 9, 14, m[s[14]], m[s[15]]);
    assert(v8 =~= seq![
        0x6fb2d88au32, 0x1ec73c14, 0x5d73b5a5, 0x68a151c3, 0xd6604f88, 0xd68bc6a2, 0x301251af, 0x5f03e9a0,
        0x95dcd344, 0x8b71057d, 0xa2d48157, 0x3df5c27e, 0x0726243a, 0xa80e30f5, 0x77bc2c95, 0x247f0f6f,
    ]);
    reveal(round_s);
}

proof fn lemma_second_block_round_7()
    ensures
        round_s(seq![
            0x6fb2d88au32, 0x1ec73c14, 0x5d73b5a5, 0x68a151c3, 0xd6604f88, 0xd68bc6a2, 0x301251af, 0x5f03e9a0,
            0x95dcd344, 0x8b71057d, 0xa2d48157, 0x3df5c27e, 0x0726243a, 0xa80e30f5, 0x77bc2c95, 0x247f0f6f,
        ], second_block(), 7) == seq![
            0x85180b81u32, 0x2b326f89, 0x08a00d26, 0x5e4b227d, 0xbb2450ab, 0x5b89c0bf, 0x950d8d72, 0x82e9dbf6,
            0x5984d41b, 0x0ea4b1b8, 0xc4f34bc0, 0xa2634200, 0x0c5d223b, 0x1e4f873b, 0xd9d4464f, 0x7656f323,
        ],
{
    assert((0x0726243au32 ^ 0x46132812) == 0x41350c28
        && ((0x41350c28u32 >> 16) | (0x41350c28u32 << 16)) == 0x0c284135
        && (0xd6604f88u32 ^ 0xa2051479) == 0x74655bf1
        && ((0x74655bf1u32 >> 12) | (0x74655bf1u32 << 20)) == 0xbf174655
        && (0x0c284135u32 ^ 0x052a6e67) == 0x09022f52
        && ((0x09022f52u32 >> 8) | (0x09022f52u32 << 24)) == 0x5209022f
        && (0xbf174655u32 ^ 0xf40e16a8) == 0x4b1950fd
        && ((0x4b1950fdu32 >> 7) | (0x4b1950fdu32 << 25)) == 0xfa9632a1
        && (0xa80e30f5u32 ^ 0xf55302b6) == 0x5d5d3243
        && ((0x5d5d3243u32 >> 16) | (0x5d5d3243u32 << 16)) == 0x32435d5d
        && (0xd68bc6a2u32 ^ 0xbdb462da) == 0x6b3fa478
        && ((0x6b3fa478u32 >> 12) | (0x6b3fa478u32 << 20)) == 0x4786b3fa
        && (0x32435d5du32 ^ 0x3cd9b6b0) == 0x0e9aebed
        && ((0x0e9aebedu32 >> 8) | (0x0e9aebedu32 << 24)) == 0xed0e9aeb
        && (0x4786b3fau32 ^ 0xaac2fdc5) == 0xed444e3f
        && ((0xed444e3fu32 >> 7) | (0xed444e3fu32 << 25)) == 0x7fda889c
        && (0x77bc2c95u32 ^ 0x8d860754) == 0xfa3a2bc1
        && ((0xfa3a2bc1u32 >> 16) | (0xfa3a2bc1u32 << 16)) == 0x2bc1fa3a
        && (0x301251afu32 ^ 0xce967b91) == 0xfe842a3e
        && ((0xfe842a3eu32 >> 12) | (0xfe842a3eu32 << 20)) == 0xa3efe842
        && (0x2bc1fa3au32 ^ 0x3175ef96) == 0x1ab415ac
        && ((0x1ab415acu32 >> 8) | (0x1ab415acu32 << 24)) == 0xac1ab415
        && (0xa3efe842u32 ^ 0x7ab12fa6) == 0xd95ec7e4
        && ((0xd95ec7e4u32 >> 7) | (0xd95ec7e4u32 << 25)) == 0xc9b2bd8f
        && (0x247f0f6fu32 ^ 0xc7a53b63) == 0xe3da340c
        && ((0xe3da340cu32 >> 16) | (0xe3da340cu32 << 16)) == 0x340ce3da
        && (0x5f03e9a0u32 ^ 0x7202a658) == 0x2d014ff8
        && ((0x2d014ff8u32 >> 12) | (0x2d014ff8u32 << 20)) == 0xff82d014
        && (0x340ce3dau32 ^ 0xc7280b77) == 0xf324e8ad
        && ((0xf324e8adu32 >> 8) | (0xf324e8adu32 << 24)) == 0xadf324e8
        && (0xff82d014u32 ^ 0x1ff5cb40) == 0xe0771b54
        && ((0xe0771b54u32 >> 7) | (0xe0771b54u32 << 25)) == 0xa9c0ee36
        && (0xadf324e8u32 ^ 0x8504f703) == 0x28f7d3eb
        && ((0x28f7d3ebu32 >> 16) | (0x28f7d3ebu32 << 16)) == 0xd3eb28f7
        && (0x7fda889cu32 ^ 0x4e9c589d) == 0x3146d001
        && ((0x3146d001u32 >> 12) | (0x3146d001u32 << 20)) == 0x0013146d
        && (0xd3eb28f7u32 ^ 0x85180b81) == 0x56f32376
        && ((0x56f32376u32 >> 8) | (0x56f32376u32 << 24)) == 0x7656f323
        && (0x0013146du32 ^ 0xc4f34bc0) == 0xc4e05fad
        && ((0xc4e05fadu32 >> 7) | (0xc4e05fadu32 << 25)) == 0x5b89c0bf
        && (0x5209022fu32 ^ 0x068c743f) == 0x54857610
        && ((0x54857610u32 >> 16) | (0x54857610u32 << 16)) == 0x76105485
        && (0xc9b2bd8fu32 ^ 0x96061fc5) == 0x5fb4a24a
        && ((0x5fb4a24au32 >> 12) | (0x5fb4a24au32 << 20)) == 0x24a5fb4a
        && (0x76105485u32 ^ 0x2b326f89) == 0x5d223b0c
        && ((0x5d223b0cu32 >> 8) | (0x5d223b0cu32 << 24)) == 0x0c5d223b
        && (0x24a5fb4au32 ^ 0xa2634200) == 0x86c6b94a
        && ((0x86c6b94au32 >> 7) | (0x86c6b94au32 << 25)) == 0x950d8d72
        && (0xed0e9aebu32 ^ 0xdb36ddcc) == 0x36384727
        && ((0x36384727u32 >> 16) | (0x36384727u32 << 16)) == 0x47273638
        && (0xa9c0ee36u32 ^ 0x3b354ce0) == 0x92f5a2d6
        && ((0x92f5a2d6u32 >> 12) | (0x92f5a2d6u32 << 20)) == 0x2d692f5a
        && (0x47273638u32 ^ 0x08a00d26) == 0x4f873b1e
        && ((0x4f873b1eu32 >> 8) | (0x4f873b1eu32 << 24)) == 0x1e4f873b
        && (0x2d692f5au32 ^ 0x5984d41b) == 0x74edfb41
        && ((0x74edfb41u32 >> 7) | (0x74edfb41u32 << 25)) == 0x82e9dbf6
        && (0xac1ab415u32 ^ 0xc1be3e18) == 0x6da48a0d
        && ((0x6da48a0du32 >> 16) | (0x6da48a0du32 << 16)) == 0x8a0d6da4
        && (0xfa9632a1u32 ^ 0x34d06b69) == 0xce4659c8
        && ((0xce4659c8u32 >> 12) | (0xce4659c8u32 << 20)) == 0x9c8ce465
        && (0x8a0d6da4u32 ^ 0x5e4b227d) == 0xd4464fd9
        && ((0xd4464fd9u32 >> 8) | (0xd4464fd9u32 << 24)) == 0xd9d4464f
        && (0x9c8ce465u32 ^ 0x0ea4b1b8) == 0x922855dd
        && ((0x922855ddu32 >> 7) | (0x922855ddu32 << 25)) == 0xbb2450ab) by (bit_vector);
    let m = second_block();
    let s = sigma_s(7);
    let v0 = seq![
        0x6fb2d88au32, 0x1ec73c14, 0x5d73b5a5, 0x68a151c3, 0xd6604f88, 0xd68bc6a2, 0x301251af, 0x5f03e9a0,
        0x95dcd344, 0x8b71057d, 0xa2d48157, 0x3df5c27e, 0x0726243a, 0xa80e30f5, 0x77bc2c95, 0x247f0f6f,
    ];
    lemma_mixed(
        v0,
        (0, 4, 8, 12),
        0,
        0,
        (0x46132812, 0x41350c28, 0x0c284135, 0xa2051479, 0x74655bf1, 0xbf174655),
        (0x052a6e67, 0x09022f52, 0x5209022f, 0xf40e16a8, 0x4b1950fd, 0xfa9632a1),
    );
    let v1 = mix_s(v0, 0, 4, 8, 12, m[s[0]], m[s[1]]);
    lemma_mixed(
        v1,
        (1, 5, 9, 13),
        0,
        0,
        (0xf55302b6, 0x5d5d3243, 0x32435d5d, 0xbdb462da, 0x6b3fa478, 0x4786b3fa),
        (0x3cd9b6b0, 0x0e9aebed, 0xed0e9aeb, 0xaac2fdc5, 0xed444e3f, 0x7fda889c),
    );
    let v2 = mix_s(v1, 1, 5, 9, 13, m[s[2]], m[s[3]]);
    lemma_mixed(
        v2,
        (2, 6, 10, 14),
        0,
        0,
        (0x8d860754, 0xfa3a2bc1, 0x2bc1fa3a, 0xce967b91, 0xfe842a3e, 0xa3efe842),
        (0x3175ef96, 0x1ab415ac, 0xac1ab415, 0x7ab12fa6, 0xd95ec7e4, 0xc9b2bd8f),
    );
    let v3 = mix_s(v2, 2, 6, 10, 14, m[s[4]], m[s[5]]);
    lemma_mixed(
        v3,
        (3, 7, 11, 15),
        0,
        0,
        (0xc7a53b63, 0xe3da340c, 0x340ce3da, 0x7202a658, 0x2d014ff8, 0xff82d014),
        (0xc7280b77, 0xf324e8ad, 0xadf324e8, 0x1ff5cb40, 0xe0771b54, 0xa9c0ee36),
    );
    let v4 = mix_s(v3, 3, 7, 11, 15, m[s[6]], m[s[7]]);
    lemma_mixed(
        v4,
        (0, 5, 10, 15),
        0,
        17,
        (0x8504f703, 0x28f7d3eb, 0xd3eb28f7, 0x4e9c589d, 0x3146d001, 0x0013146d),
        (0x85180b81, 0x56f32376, 0x7656f323, 0xc4f34bc0, 0xc4e05fad, 0x5b89c0bf),
    );
    let v5 = mix_s(v4, 0, 5, 10, 15, m[s[8]], m[s[9]]);
    lemma_mixed(
        v5,
        (1, 6, 11, 12),
        0,
        0,
        (0x068c743f, 0x54857610, 0x76105485, 0x96061fc5, 0x5fb4a24a, 0x24a5fb4a),
        (0x2b326f89, 0x5d223b0c, 0x0c5d223b, 0xa2634200, 0x86c6b94a, 0x950d8d72),
    );
    let v6 = mix_s(v5, 1, 6, 11, 12, m[s[10]], m[s[11]]);
    lemma_mixed(
        v6,
        (2, 7, 8, 13),
        0,
        0,
        (0xdb36ddcc, 0x36384727, 0x47273638, 0x3b354ce0, 0x92f5a2d6, 0x2d692f5a),
        (0x08a00d26, 0x4f873b1e, 0x1e4f873b, 0x5984d41b, 0x74edfb41, 0x82e9dbf6),
    );
    let v7 = mix_s(v6, 2, 7, 8, 13, m[s[12]], m[s[13]]);
    lemma_mixed(
        v7,
        (3, 4, 9, 14),
        0,
        0,
        (0xc1be3e18, 0x6da48a0d, 0x8a0d6da4, 0x34d06b69, 0xce4659c8, 0x9c8ce465),
        (0x5e4b227d, 0xd4464fd9, 0xd9d4464f, 0x0ea4b1b8, 0x922855dd, 0xbb2450ab),
    );
    let v8 = mix_s(v7, 3, 4, 9, 14, m[s[14]], m[s[15]]);
    assert(v8 =~= seq![
        0x85180b81u32, 0x2b326f89, 0x08a00d26, 0x5e4b227d, 0xbb2450ab, 0x5b89c0bf, 0x950d8d72, 0x82e9dbf6,
        0x5984d41b, 0x0ea4b1b8, 0xc4f34bc0, 0xa2634200, 0x0c5d223b, 0x1e4f873b, 0xd9d4464f, 0x7656f323,
    ]);
    reveal(round_s);
}

proof fn lemma_second_block_round_8()
    ensures
        round_s(seq![
            0x85180b81u32, 0x2b326f89, 0x08a00d26, 0x5e4b227d, 0xbb2450ab, 0x5b89c0bf, 0x950d8d72, 0x82e9dbf6,
            0x5984d41b, 0x0ea4b1b8, 0xc4f34bc0, 0xa2634200, 0x0c5d223b, 0x1e4f873b, 0xd9d4464f, 0x7656f323,
        ], second_block(), 8) == seq![
            0xec69964cu32, 0x6e41e7a0, 0xd05eacbf, 0x6715c4d2, 0x55b6478c, 0x65504766, 0xb4aa5044, 0xe2947272,
            0x48a61bf9, 0x4077e02a, 0xfce7c155, 0xbf866873, 0x00575db6, 0x9f2ff8f2, 0xbd4e647f, 0xee1037d7,
        ],
{
    assert((0x0c5d223bu32 ^ 0x403c5c2c) == 0x4c617e17
        && ((0x4c617e17u32 >> 16) | (0x4c617e17u32 << 16)) == 0x7e174c61
        && (0xbb2450abu32 ^ 0xd79c207c) == 0x6cb870d7
        && ((0x6cb870d7u32 >> 12) | (0x6cb870d7u32 << 20)) == 0x0d76cb87
        && (0x7e174c61u32 ^ 0x4db327b3) == 0x33a46bd2
        && ((0x33a46bd2u32 >> 8) | (0x33a46bd2u32 << 24)) == 0xd233a46b
        && (0x0d76cb87u32 ^ 0xa9cfc4e7) == 0xa4b90f60
        && ((0xa4b90f60u32 >> 7) | (0xa4b90f60u32 << 25)) == 0xc149721e
        && (0x1e4f873bu32 ^ 0x86bc3048) == 0x98f3b773
        && ((0x98f3b773u32 >> 16) | (0x98f3b773u32 << 16)) == 0xb77398f3
        && (0x5b89c0bfu32 ^ 0xc6184aab) == 0x9d918a14
        && ((0x9d918a14u32 >> 12) | (0x9d918a14u32 << 20)) == 0xa149d918
        && (0xb77398f3u32 ^ 0x28060960) == 0x9f759193
        && ((0x9f759193u32 >> 8) | (0x9f759193u32 << 24)) == 0x939f7591
        && (0xa149d918u32 ^ 0x59b7c03c) == 0xf8fe1924
        && ((0xf8fe1924u32 >> 7) | (0xf8fe1924u32 << 25)) == 0x49f1fc32
        && (0xd9d4464fu32 ^ 0x9dad9a98) == 0x4479dcd7
        && ((0x4479dcd7u32 >> 16) | (0x4479dcd7u32 << 16)) == 0xdcd74479
        && (0x950d8d72u32 ^ 0xa1ca9039) == 0x34c71d4b
        && ((0x34c71d4bu32 >> 12) | (0x34c71d4bu32 << 20)) == 0xd4b34c71
        && (0xdcd74479u32 ^ 0x7260e709) == 0xaeb7a370
        && ((0xaeb7a370u32 >> 8) | (0xaeb7a370u32 << 24)) == 0x70aeb7a3
        && (0xd4b34c71u32 ^ 0x127947dc) == 0xc6ca0bad
        && ((0xc6ca0badu32 >> 7) | (0xc6ca0badu32 << 25)) == 0x5b8d9417
        && (0x7656f323u32 ^ 0xe134fe84) == 0x97620da7
        && ((0x97620da7u32 >> 16) | (0x97620da7u32 << 16)) == 0x0da79762
        && (0x82e9dbf6u32 ^ 0xb00ad962) == 0x32e30294
        && ((0x32e30294u32 >> 12) | (0x32e30294u32 << 20)) == 0x29432e30
        && (0x0da79762u32 ^ 0x0a782cb4) == 0x07dfbbd6
        && ((0x07dfbbd6u32 >> 8) | (0x07dfbbd6u32 << 24)) == 0xd607dfbb
        && (0x29432e30u32 ^ 0x8612b91d) == 0xaf51972d
        && ((0xaf51972du32 >> 7) | (0xaf51972du32 << 25)) == 0x5b5ea32e
        && (0xd607dfbbu32 ^ 0x97a523e5) == 0x41a2fc5e
        && ((0x41a2fc5eu32 >> 16) | (0x41a2fc5eu32 << 16)) == 0xfc5e41a2
        && (0x49f1fc32u32 ^ 0x0ed7897e) == 0x4726754c
        && ((0x4726754cu32 >> 12) | (0x4726754cu32 << 20)) == 0x54c47267
        && (0xfc5e41a2u32 ^ 0xec69964c) == 0x1037d7ee
        && ((0x1037d7eeu32 >> 8) | (0x1037d7eeu32 << 24)) == 0xee1037d7
        && (0x54c47267u32 ^ 0xfce7c155) == 0xa823b332
        && ((0xa823b332u32 >> 7) | (0xa823b332u32 << 25)) == 0x65504766
        && (0xd233a46bu32 ^ 0x83939d77) == 0x51a0391c
        && ((0x51a0391cu32 >> 16) | (0x51a0391cu32 << 16)) == 0x391c51a0
        && (0x5b8d9417u32 ^ 0xbf2f0abd) == 0xe4a29eaa
        && ((0xe4a29eaau32 >> 12) | (0xe4a29eaau32 << 20)) == 0xeaae4a29
        && (0x391c51a0u32 ^ 0x6e41e7a0) == 0x575db600
        && ((0x575db600u32 >> 8) | (0x575db600u32 << 24)) == 0x00575db6
        && (0xeaae4a29u32 ^ 0xbf866873) == 0x5528225a
        && ((0x5528225au32 >> 7) | (0x5528225au32 << 25)) == 0xb4aa5044
        && (0x939f7591u32 ^ 0xcdbf8a37) == 0x5e20ffa6
        && ((0x5e20ffa6u32 >> 16) | (0x5e20ffa6u32 << 16)) == 0xffa65e20
        && (0x5b5ea32eu32 ^ 0xa9762307) == 0xf2288029
        && ((0xf2288029u32 >> 12) | (0xf2288029u32 << 20)) == 0x029f2288
        && (0xffa65e20u32 ^ 0xd05eacbf) == 0x2ff8f29f
        && ((0x2ff8f29fu32 >> 8) | (0x2ff8f29fu32 << 24)) == 0x9f2ff8f2
        && (0x029f2288u32 ^ 0x48a61bf9) == 0x4a393971
        && ((0x4a393971u32 >> 7) | (0x4a393971u32 << 25)) == 0xe2947272
        && (0x70aeb7a3u32 ^ 0xcbc19ed2) == 0xbb6f2971
        && ((0xbb6f2971u32 >> 16) | (0xbb6f2971u32 << 16)) == 0x2971bb6f
        && (0xc149721eu32 ^ 0x83297bab) == 0x426009b5
        && ((0x426009b5u32 >> 12) | (0x426009b5u32 << 20)) == 0x9b542600
        && (0x2971bb6fu32 ^ 0x6715c4d2) == 0x4e647fbd
        && ((0x4e647fbdu32 >> 8) | (0x4e647fbdu32 << 24)) == 0xbd4e647f
        && (0x9b542600u32 ^ 0x4077e02a) == 0xdb23c62a
        && ((0xdb23c62au32 >> 7) | (0xdb23c62au32 << 25)) == 0x55b6478c) by (bit_vector);
    let m = second_block();
    let s = sigma_s(8);
    let v0 = seq![
        0x85180b81u32, 0x2b326f89, 0x08a00d26, 0x5e4b227d, 0xbb2450ab, 0x5b89c0bf, 0x950d8d72, 0x82e9dbf6,
        0x5984d41b, 0x0ea4b1b8, 0xc4f34bc0, 0xa2634200, 0x0c5d223b, 0x1e4f873b, 0xd9d4464f, 0x7656f323,
    ];
    lemma_mixed(
        v0,
        (0, 4, 8, 12),
        0,
        0,
        (0x403c5c2c, 0x4c617e17, 0x7e174c61, 0xd79c207c, 0x6cb870d7, 0x0d76cb87),
        (0x4db327b3, 0x33a46bd2, 0xd233a46b, 0xa9cfc4e7, 0xa4b90f60, 0xc149721e),
    );
    let v1 = mix_s(v0, 0, 4, 8, 12, m[s[0]], m[s[1]]);
    lemma_mixed(
        v1,
        (1, 5, 9, 13),
        0,
        0,
        (0x86bc3048, 0x98f3b773, 0xb77398f3, 0xc6184aab, 0x9d918a14, 0xa149d918),
        (0x28060960, 0x9f759193, 0x939f7591, 0x59b7c03c, 0xf8fe1924, 0x49f1fc32),
    );
    let v2 = mix_s(v1, 1, 5, 9, 13, m[s[2]], m[s[3]]);
    lemma_mixed(
        v2,
        (2, 6, 10, 14),
        0,
        0,
        (0x9dad9a98, 0x4479dcd7, 0xdcd74479, 0xa1ca9039, 0x34c71d4b, 0xd4b34c71),
        (0x7260e709, 0xaeb7a370, 0x70aeb7a3, 0x127947dc, 0xc6ca0bad, 0x5b8d9417),
    );
    let v3 = mix_s(v2, 2, 6, 10, 14, m[s[4]], m[s[5]]);
    lemma_mixed(
        v3,
        (3, 7, 11, 15),
        17,
        0,
        (0xe134fe84, 0x97620da7, 0x0da79762, 0xb00ad962, 0x32e30294, 0x29432e30),
        (0x0a782cb4, 0x07dfbbd6, 0xd607dfbb, 0x8612b91d, 0xaf51972d, 0x5b5ea32e),
    );
    let v4 = mix_s(v3, 3, 7, 11, 15, m[s[6]], m[s[7]]);
    lemma_mixed(
        v4,
        (0, 5, 10, 15),
        0,
        0,
        (0x97a523e5, 0x41a2fc5e, 0xfc5e41a2, 0x0ed7897e, 0x4726754c, 0x54c47267),
        (0xec69964c, 0x1037d7ee, 0xee1037d7, 0xfce7c155, 0xa823b332, 0x65504766),
    );
    let v5 = mix_s(v4, 0, 5, 10, 15, m[s[8]], m[s[9]]);
    lemma_mixed(
        v5,
        (1, 6, 11, 12),
        0,
        0,
        (0x83939d77, 0x51a0391c, 0x391c51a0, 0xbf2f0abd, 0xe4a29eaa, 0xeaae4a29),
        (0x6e41e7a0, 0x575db600, 0x00575db6, 0xbf866873, 0x5528225a, 0xb4aa5044),
    );
    let v6 = mix_s(v5, 1, 6, 11, 12, m[s[10]], m[s[11]]);
    lemma_mixed(
        v6,
        (2, 7, 8, 13),
        0,
        0,
        (0xcdbf8a37, 0x5e20ffa6, 0xffa65e20, 0xa9762307, 0xf2288029, 0x029f2288),
        (0xd05eacbf, 0x2ff8f29f, 0x9f2ff8f2, 0x48a61bf9, 0x4a393971, 0xe2947272),
    );
    let v7 = mix_s(v6, 2, 7, 8, 13, m[s[12]], m[s[13]]);
    lemma_mixed(
        v7,
        (3, 4, 9, 14),
        0,
        0,
        (0xcbc19ed2, 0xbb6f2971, 0x2971bb6f, 0x83297bab, 0x426009b5, 0x9b542600),
        (0x6715c4d2, 0x4e647fbd, 0xbd4e647f, 0x4077e02a, 0xdb23c62a, 0x55b6478c),
    );
    let v8 = mix_s(v7, 3, 4, 9, 14, m[s[14]], m[s[15]]);
    assert(v8 =~= seq![
        0xec69964cu32, 0x6e41e7a0, 0xd05eacbf, 0x6715c4d2, 0x55b6478c, 0x65504766, 0xb4aa5044, 0xe2947272,
        0x48a61bf9, 0x4077e02a, 0xfce7c155, 0xbf866873, 0x00575db6, 0x9f2ff8f2, 0xbd4e647f, 0xee1037d7,
    ]);
    reveal(round_s);
}

proof fn lemma_second_block_round_9()
    ensures
        round_s(seq![
            0xec69964cu32, 0x6e41e7a0, 0xd05eacbf, 0x6715c4d2, 0x55b6478c, 0x65504766, 0xb4aa5044, 0xe2947272,
            0x48a61bf9, 0x4077e02a, 0xfce7c155, 0xbf866873, 0x00575db6, 0x9f2ff8f2, 0xbd4e647f, 0xee1037d7,
        ], second_block(), 9) == seq![
            0x7c5145a0u32, 0x32c9577f, 0xf0d3e538, 0xe76501c9, 0x7561509b, 0x31b6a39e, 0x62f7f413, 0x3da7560d,
            0x7b46c3b3, 0xd75306ac, 0x6da211ee, 0x42c570ea, 0xa87b081f, 0x828e96d3, 0x1bd6d6a5, 0x92153c10,
        ],
{
    assert((0x00575db6u32 ^ 0x421fddd8) == 0x4248806e
        && ((0x4248806eu32 >> 16) | (0x4248806eu32 << 16)) == 0x806e4248
        && (0x55b6478cu32 ^ 0xc9145e41) == 0x9ca219cd
        && ((0x9ca219cdu32 >> 12) | (0x9ca219cdu32 << 20)) == 0x9cd9ca21
        && (0x806e4248u32 ^ 0xdef9a7f9) == 0x5e97e5b1
        && ((0x5e97e5b1u32 >> 8) | (0x5e97e5b1u32 << 24)) == 0xb15e97e5
        && (0x9cd9ca21u32 ^ 0x7a72f626) == 0xe6ab3c07
        && ((0xe6ab3c07u32 >> 7) | (0xe6ab3c07u32 << 25)) == 0x0fcd5678
        && (0x9f2ff8f2u32 ^ 0xd3922f06) == 0x4cbdd7f4
        && ((0x4cbdd7f4u32 >> 16) | (0x4cbdd7f4u32 << 16)) == 0xd7f44cbd
        && (0x65504766u32 ^ 0x186c2ce7) == 0x7d3c6b81
        && ((0x7d3c6b81u32 >> 12) | (0x7d3c6b81u32 << 20)) == 0xb817d3c6
        && (0xd7f44cbdu32 ^ 0x8baa02cc) == 0x5c5e4e71
        && ((0x5c5e4e71u32 >> 8) | (0x5c5e4e71u32 << 24)) == 0x715c5e4e
        && (0xb817d3c6u32 ^ 0x89c88b35) == 0x31df58f3
        && ((0x31df58f3u32 >> 7) | (0x31df58f3u32 << 25)) == 0xe663beb1
        && (0xbd4e647fu32 ^ 0x8508fd03) == 0x3846997c
        && ((0x3846997cu32 >> 16) | (0x3846997cu32 << 16)) == 0x997c3846
        && (0xb4aa5044u32 ^ 0x9663f99b) == 0x22c9a9df
        && ((0x22c9a9dfu32 >> 12) | (0x22c9a9dfu32 << 20)) == 0x9df22c9a
        && (0x997c3846u32 ^ 0x22fb299d) == 0xbb8711db
        && ((0xbb8711dbu32 >> 8) | (0xbb8711dbu32 << 24)) == 0xdbbb8711
        && (0x9df22c9au32 ^ 0x721f80ac) == 0xefedac36
        && ((0xefedac36u32 >> 7) | (0xefedac36u32 << 25)) == 0x6ddfdb58
        && (0xee1037d7u32 ^ 0x49aa3744) == 0xa7ba0093
        && ((0xa7ba0093u32 >> 16) | (0xa7ba0093u32 << 16)) == 0x0093a7ba
        && (0xe2947272u32 ^ 0xc01a102d) == 0x228e625f
        && ((0x228e625fu32 >> 12) | (0x228e625fu32 << 20)) == 0x25f228e6
        && (0x0093a7bau32 ^ 0x6f9c602a) == 0x6f0fc790
        && ((0x6f0fc790u32 >> 8) | (0x6f0fc790u32 << 24)) == 0x906f0fc7
        && (0x25f228e6u32 ^ 0x50891ff4) == 0x757b3712
        && ((0x757b3712u32 >> 7) | (0x757b3712u32 << 25)) == 0x24eaf66e
        && (0x906f0fc7u32 ^ 0xc55d66aa) == 0x5532696d
        && ((0x5532696du32 >> 16) | (0x5532696du32 << 16)) == 0x696d5532
        && (0xe663beb1u32 ^ 0xdb8cd5de) == 0x3def6b6f
        && ((0x3def6b6fu32 >> 12) | (0x3def6b6fu32 << 20)) == 0xb6f3def6
        && (0x696d5532u32 ^ 0x7c5145a0) == 0x153c1092
        && ((0x153c1092u32 >> 8) | (0x153c1092u32 << 24)) == 0x92153c10
        && (0xb6f3def6u32 ^ 0x6da211ee) == 0xdb51cf18
        && ((0xdb51cf18u32 >> 7) | (0xdb51cf18u32 << 25)) == 0x31b6a39e
        && (0xb15e97e5u32 ^ 0xf989de24) == 0x48d749c1
        && ((0x48d749c1u32 >> 16) | (0x48d749c1u32 << 16)) == 0x49c148d7
        && (0x6ddfdb58u32 ^ 0x9a4a68cb) == 0xf795b393
        && ((0xf795b393u32 >> 12) | (0xf795b393u32 << 20)) == 0x393f795b
        && (0x49c148d7u32 ^ 0x32c9577f) == 0x7b081fa8
        && ((0x7b081fa8u32 >> 8) | (0x7b081fa8u32 << 24)) == 0xa87b081f
        && (0x393f795bu32 ^ 0x42c570ea) == 0x7bfa09b1
        && ((0x7bfa09b1u32 >> 7) | (0x7bfa09b1u32 << 25)) == 0x62f7f413
        && (0x715c5e4eu32 ^ 0x47e6200b) == 0x36ba7e45
        && ((0x36ba7e45u32 >> 16) | (0x36ba7e45u32 << 16)) == 0x7e4536ba
        && (0x24eaf66eu32 ^ 0xf8b82ce0) == 0xdc52da8e
        && ((0xdc52da8eu32 >> 12) | (0xdc52da8eu32 << 20)) == 0xa8edc52d
        && (0x7e4536bau32 ^ 0xf0d3e538) == 0x8e96d382
        && ((0x8e96d382u32 >> 8) | (0x8e96d382u32 << 24)) == 0x828e96d3
        && (0xa8edc52du32 ^ 0x7b46c3b3) == 0xd3ab069e
        && ((0xd3ab069eu32 >> 7) | (0xd3ab069eu32 << 25)) == 0x3da7560d
        && (0xdbbb8711u32 ^ 0x7f69b6a2) == 0xa4d231b3
        && ((0xa4d231b3u32 >> 16) | (0xa4d231b3u32 << 16)) == 0x31b3a4d2
        && (0x0fcd5678u32 ^ 0xbb7c3007) == 0xb4b1667f
        && ((0xb4b1667fu32 >> 12) | (0xb4b1667fu32 << 20)) == 0x67fb4b16
        && (0x31b3a4d2u32 ^ 0xe76501c9) == 0xd6d6a51b
        && ((0xd6d6a51bu32 >> 8) | (0xd6d6a51bu32 << 24)) == 0x1bd6d6a5
        && (0x67fb4b16u32 ^ 0xd75306ac) == 0xb0a84dba
        && ((0xb0a84dbau32 >> 7) | (0xb0a84dbau32 << 25)) == 0x7561509b) by (bit_vector);
    let m = second_block();
    let s = sigma_s(9);
    let v0 = seq![
        0xec69964cu32, 0x6e41e7a0, 0xd05eacbf, 0x6715c4d2, 0x55b6478c, 0x65504766, 0xb4aa5044, 0xe2947272,
        0x48a61bf9, 0x4077e02a, 0xfce7c155, 0xbf866873, 0x00575db6, 0x9f2ff8f2, 0xbd4e647f, 0xee1037d7,
    ];
    lemma_mixed(
        v0,
        (0, 4, 8, 12),
        0,
        0,
        (0x421fddd8, 0x4248806e, 0x806e4248, 0xc9145e41, 0x9ca219cd, 0x9cd9ca21),
        (0xdef9a7f9, 0x5e97e5b1, 0xb15e97e5, 0x7a72f626, 0xe6ab3c07, 0x0fcd5678),
    );
    let v1 = mix_s(v0, 0, 4, 8, 12, m[s[0]], m[s[1]]);
    lemma_mixed(
        v1,
        (1, 5, 9, 13),
        0,
        0,
        (0xd3922f06, 0x4cbdd7f4, 0xd7f44cbd, 0x186c2ce7, 0x7d3c6b81, 0xb817d3c6),
        (0x8baa02cc, 0x5c5e4e71, 0x715c5e4e, 0x89c88b35, 0x31df58f3, 0xe663beb1),
    );
    let v2 = mix_s(v1, 1, 5, 9, 13, m[s[2]], m[s[3]]);
    lemma_mixed(
        v2,
        (2, 6, 10, 14),
        0,
        0,
        (0x8508fd03, 0x3846997c, 0x997c3846, 0x9663f99b, 0x22c9a9df, 0x9df22c9a),
        (0x22fb299d, 0xbb8711db, 0xdbbb8711, 0x721f80ac, 0xefedac36, 0x6ddfdb58),
    );
    let v3 = mix_s(v2, 2, 6, 10, 14, m[s[4]], m[s[5]]);
    lemma_mixed(
        v3,
        (3, 7, 11, 15),
        0,
        0,
        (0x49aa3744, 0xa7ba0093, 0x0093a7ba, 0xc01a102d, 0x228e625f, 0x25f228e6),
        (0x6f9c602a, 0x6f0fc790, 0x906f0fc7, 0x50891ff4, 0x757b3712, 0x24eaf66e),
    );
    let v4 = mix_s(v3, 3, 7, 11, 15, m[s[6]], m[s[7]]);
    lemma_mixed(
        v4,
        (0, 5, 10, 15),
        0,
        0,
        (0xc55d66aa, 0x5532696d, 0x696d5532, 0xdb8cd5de, 0x3def6b6f, 0xb6f3def6),
        (0x7c5145a0, 0x153c1092, 0x92153c10, 0x6da211ee, 0xdb51cf18, 0x31b6a39e),
    );
    let v5 = mix_s(v4, 0, 5, 10, 15, m[s[8]], m[s[9]]);
    lemma_mixed(
        v5,
        (1, 6, 11, 12),
        0,
        0,
        (0xf989de24, 0x48d749c1, 0x49c148d7, 0x9a4a68cb, 0xf795b393, 0x393f795b),
        (0x32c9577f, 0x7b081fa8, 0xa87b081f, 0x42c570ea, 0x7bfa09b1, 0x62f7f413),
    );
    let v6 = mix_s(v5, 1, 6, 11, 12, m[s[10]], m[s[11]]);
    lemma_mixed(
        v6,
        (2, 7, 8, 13),
        0,
        0,
        (0x47e6200b, 0x36ba7e45, 0x7e4536ba, 0xf8b82ce0, 0xdc52da8e, 0xa8edc52d),
        (0xf0d3e538, 0x8e96d382, 0x828e96d3, 0x7b46c3b3, 0xd3ab069e, 0x3da7560d),
    );
    let v7 = mix_s(v6, 2, 7, 8, 13, m[s[12]], m[s[13]]);
    lemma_mixed(
        v7,
        (3, 4, 9, 14),
        0,
        17,
        (0x7f69b6a2, 0xa4d231b3, 0x31b3a4d2, 0xbb7c3007, 0xb4b1667f, 0x67fb4b16),
        (0xe76501c9, 0xd6d6a51b, 0x1bd6d6a5, 0xd75306ac, 0xb0a84dba, 0x7561509b),
    );
    let v8 = mix_s(v7, 3, 4, 9, 14, m[s[14]], m[s[15]]);
    assert(v8 =~= seq![
        0x7c5145a0u32, 0x32c9577f, 0xf0d3e538, 0xe76501c9, 0x7561509b, 0x31b6a39e, 0x62f7f413, 0x3da7560d,
        0x7b46c3b3, 0xd75306ac, 0x6da211ee, 0x42c570ea, 0xa87b081f, 0x828e96d3, 0x1bd6d6a5, 0x92153c10,
    ]);
    reveal(round_s);
}

proof fn lemma_second_block()
    ensures
        compress_s(seq![
            0x53d4afaeu32, 0xaa861f99, 0xe12864ea, 0xecb33304, 0x8dd34c21, 0xf7f347ae, 0x43dbc701, 0xf713cf0b,
        ], second_block(), 68u64, true) == seq![
            0x54c329bdu32, 0x4f1c4e4a, 0x7c59903c, 0x49134227, 0x50c914a5, 0x44cb72e3, 0x3afae5b7, 0x58a1a516,
        ],
{
    assert((0x53d4afaeu32 ^ 0x7c5145a0 ^ 0x7b46c3b3) == 0x54c329bd
        && (0xaa861f99u32 ^ 0x32c9577f ^ 0xd75306ac) == 0x4f1c4e4a
        && (0xe12864eau32 ^ 0xf0d3e538 ^ 0x6da211ee) == 0x7c59903c
        && (0xecb33304u32 ^ 0xe76501c9 ^ 0x42c570ea) == 0x49134227
        && (0x8dd34c21u32 ^ 0x7561509b ^ 0xa87b081f) == 0x50c914a5
        && (0xf7f347aeu32 ^ 0x31b6a39e ^ 0x828e96d3) == 0x44cb72e3
        && (0x43dbc701u32 ^ 0x62f7f413 ^ 0x1bd6d6a5) == 0x3afae5b7
        && (0xf713cf0bu32 ^ 0x3da7560d ^ 0x92153c10) == 0x58a1a516
        && (0x510e527fu32 ^ 0x00000044) == 0x510e523b
        && (0x9b05688cu32 ^ 0) == 0x9b05688c
        && !0x1f83d9abu32 == 0xe07c2654
        && (68u64 & 0xffff_ffffu64) == 68u64
        && (68u64 >> 32u64) == 0u64) by (bit_vector);
    reveal(compress_s);
    let h = seq![
        0x53d4afaeu32, 0xaa861f99, 0xe12864ea, 0xecb33304, 0x8dd34c21, 0xf7f347ae, 0x43dbc701, 0xf713cf0b,
    ];
    let m = second_block();
    let v = working_s(h, 68u64, true);
    assert(v =~= seq![
        0x53d4afaeu32, 0xaa861f99, 0xe12864ea, 0xecb33304, 0x8dd34c21, 0xf7f347ae, 0x43dbc701, 0xf713cf0b,
        0x6a09e667, 0xbb67ae85, 0x3c6ef372, 0xa54ff53a, 0x510e523b, 0x9b05688c, 0xe07c2654, 0x5be0cd19,
    ]);
    lemma_second_block_round_0();
    lemma_second_block_round_1();
    lemma_second_block_round_2();
    lemma_second_block_round_3();
    lemma_second_block_round_4();
    lemma_second_block_round_5();
    lemma_second_block_round_6();
    lemma_second_block_round_7();
    lemma_second_block_round_8();
    lemma_second_block_round_9();
    assert(rounds_s(v, m, 1) == round_s(rounds_s(v, m, 0), m, 0));
    assert(rounds_s(v, m, 2) == round_s(rounds_s(v, m, 1), m, 1));
    assert(rounds_s(v, m, 3) == round_s(rounds_s(v, m, 2), m, 2));
    assert(rounds_s(v, m, 4) == round_s(rounds_s(v, m, 3), m, 3));
    assert(rounds_s(v, m, 5) == round_s(rounds_s(v, m, 4), m, 4));
    assert(rounds_s(v, m, 6) == round_s(rounds_s(v, m, 5), m, 5));
    assert(rounds_s(v, m, 7) == round_s(rounds_s(v, m, 6), m, 6));
    assert(rounds_s(v, m, 8) == round_s(rounds_s(v, m, 7), m, 7));
    assert(rounds_s(v, m, 9) == round_s(rounds_s(v, m, 8), m, 8));
    assert(rounds_s(v, m, 10) == round_s(rounds_s(v, m, 9), m, 9));
    assert(compress_s(h, m, 68u64, true) =~= seq![
        0x54c329bdu32, 0x4f1c4e4a, 0x7c59903c, 0x49134227, 0x50c914a5, 0x44cb72e3, 0x3afae5b7, 0x58a1a516,
    ]);
}

/// The Blake2s digest of the words from one to seventeen.
pub proof fn lemma_digest_of_first_words()
    ensures
        blake2s_s(first_words()) == seq![
            0x54c329bdu32, 0x4f1c4e4a, 0x7c59903c, 0x49134227, 0x50c914a5, 0x44cb72e3, 0x3afae5b7, 0x58a1a516,
        ],
{
    let w = first_words();
    assert((0x6a09e667u32 ^ 0x01010020) == 0x6b08e647) by (bit_vector);
    assert(initial_s() =~= seq![
        0x6b08e647u32, 0xbb67ae85, 0x3c6ef372, 0xa54ff53a, 0x510e527f, 0x9b05688c, 0x1f83d9ab, 0x5be0cd19,
    ]);
    assert(w.subrange(0, 16) =~= first_block());
    assert(padded_block(w.skip(16)) =~= second_block());
    assert(chain_s(w, 0) == initial_s());
    assert(bytes_of(16) == 64u64);
    assert(bytes_of(17) == 68u64);
    lemma_first_block();
    lemma_second_block();
    assert(chain_s(w, 1) == compress_s(chain_s(w, 0), w.subrange(0, 16), bytes_of(16), false));
}

} // verus!
