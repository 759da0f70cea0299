//! Parameters of the commitment scheme.

use vstd::prelude::*;

use super::channel::{Channel, Step};
use crate::fields::cm31::CM31;
use crate::fields::m31::M31;
use crate::fields::qm31::QM31;
use crate::vcs::hasher::MerkleHasherLifted;

verus! {

/// The columns that one part of a proof added to a tree.
#[derive(Clone, Copy, Debug, PartialEq, Eq, Structural)]
pub struct TreeSubspan {
    pub tree_index: usize,
    pub col_start: usize,
    pub col_end: usize,
}

/// Parameters of the low-degree test.
#[derive(Clone, Copy, Debug, PartialEq, Eq, Structural)]
pub struct FriConfig {
    pub log_blowup_factor: u32,
    pub log_last_layer_degree_bound: u32,
    pub n_queries: usize,
    pub fold_step: u32,
}

impl FriConfig {
    pub fn new(
        log_last_layer_degree_bound: u32,
        log_blowup_factor: u32,
        n_queries: usize,
        fold_step: u32,
    ) -> (r: FriConfig)
        ensures
            r == (FriConfig {
                log_blowup_factor,
                log_last_layer_degree_bound,
                n_queries,
                fold_step,
            }),
    {
        FriConfig { log_blowup_factor, log_last_layer_degree_bound, n_queries, fold_step }
    }

    /// Each query gives as many bits as the blowup factor has.
    pub open spec fn security_bits_s(self) -> int {
        self.log_blowup_factor * self.n_queries
    }

    pub fn security_bits(&self) -> (r: u32)
        requires
            self.security_bits_s() <= u32::MAX,
            self.n_queries <= u32::MAX,
        ensures
            r == self.security_bits_s(),
    {
        self.log_blowup_factor * self.n_queries as u32
    }

    /// One query more gives as many bits more as the blowup factor has, and no queries give none.
    pub proof fn lemma_bits_per_query(self, more: FriConfig)
        requires
            more.log_blowup_factor == self.log_blowup_factor,
            more.n_queries == self.n_queries + 1,
        ensures
            more.security_bits_s() == self.security_bits_s() + self.log_blowup_factor,
            self.n_queries == 0 ==> self.security_bits_s() == 0,
    {
        assert(self.log_blowup_factor * (self.n_queries + 1) == self.log_blowup_factor
            * self.n_queries + self.log_blowup_factor) by (nonlinear_arith);
    }
}

/// Parameters of the commitment scheme.
#[derive(Clone, Copy, Debug, PartialEq, Eq, Structural)]
pub struct PcsConfig {
    /// The bits of proof of work before the queries.
    pub pow_bits: u32,
    pub fri_config: FriConfig,
    /// The size that all columns are lifted to, blowup included; by default that of the largest
    /// column of each tree.
    pub lifting_log_size: Option<u32>,
    /// Whether the trees that depend on a witness are salted.
    pub zk: bool,
}

impl PcsConfig {
    /// The bits of security: those of the proof of work and those of the queries.
    pub fn security_bits(&self) -> (r: u32)
        requires
            self.pow_bits + self.fri_config.security_bits_s() <= u32::MAX,
            self.fri_config.n_queries <= u32::MAX,
        ensures
            r == self.pow_bits + self.fri_config.security_bits_s(),
    {
        assert(self.fri_config.security_bits_s() >= 0) by (nonlinear_arith)
            requires
                self.fri_config.security_bits_s() == self.fri_config.log_blowup_factor
                    * self.fri_config.n_queries,
        ;
        self.pow_bits + self.fri_config.security_bits()
    }

    /// The elements that stand for the parameters in a transcript. Without salts the last but one
    /// word is zero.
    pub open spec fn felts(self) -> Seq<QM31> {
        seq![
            QM31(
                CM31(M31(self.pow_bits), M31(self.fri_config.log_blowup_factor)),
                CM31(
                    M31(self.fri_config.n_queries as u32),
                    M31(self.fri_config.log_last_layer_degree_bound),
                ),
            ),
            QM31(
                CM31(
                    M31(self.fri_config.fold_step),
                    M31(
                        match self.lifting_log_size {
                            Some(log_size) => log_size,
                            None => 0,
                        },
                    ),
                ),
                CM31(
                    M31(
                        if self.zk {
                            1
                        } else {
                            0
                        },
                    ),
                    M31(0),
                ),
            ),
        ]
    }

    /// Mixes the parameters into a transcript.
    pub fn mix_into<H: MerkleHasherLifted, C: Channel<H>>(&self, channel: &mut C)
        ensures
            final(channel).steps() == old(channel).steps().push(Step::Felts(self.felts())),
    {
        let lifting: u32 = match self.lifting_log_size {
            Some(log_size) => log_size,
            None => 0,
        };
        let zk_marker: u32 = if self.zk {
            1
        } else {
            0
        };
        let felts: [QM31; 2] = [
            QM31::from_u32_unchecked(
                self.pow_bits,
                self.fri_config.log_blowup_factor,
                self.fri_config.n_queries as u32,
                self.fri_config.log_last_layer_degree_bound,
            ),
            QM31::from_u32_unchecked(self.fri_config.fold_step, lifting, zk_marker, 0),
        ];
        assert(felts@ =~= self.felts());
        channel.mix_felts(felts.as_slice());
    }
}

impl Default for PcsConfig {
    fn default() -> (r: PcsConfig)
        ensures
            r == (PcsConfig {
                pow_bits: 10,
                fri_config: FriConfig {
                    log_blowup_factor: 1,
                    log_last_layer_degree_bound: 0,
                    n_queries: 3,
                    fold_step: 1,
                },
                lifting_log_size: None,
                zk: false,
            }),
    {
        PcsConfig {
            pow_bits: 10,
            fri_config: FriConfig::new(0, 1, 3, 1),
            lifting_log_size: None,
            zk: false,
        }
    }
}

/// The transcript tells parameters apart: equal elements mean equal parameters, as long as the
/// number of queries fits a word. No lifted size and a lifted size of zero are the same.
pub proof fn lemma_felts_injective(a: PcsConfig, b: PcsConfig)
    requires
        a.felts() == b.felts(),
        a.fri_config.n_queries <= u32::MAX,
        b.fri_config.n_queries <= u32::MAX,
        a.lifting_log_size != Some(0u32),
        b.lifting_log_size != Some(0u32),
    ensures
        a == b,
{
    let (x, y) = (a.felts()[0], b.felts()[0]);
    let (u, v) = (a.felts()[1], b.felts()[1]);
    assert(x == y && u == v);
}

} // verus!
