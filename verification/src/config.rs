//! How a sender is set up.
use vstd::prelude::*;

use crate::types::TpuPortKind;

verus! {

/// Room in the queue to the TPU event loop, unless configured otherwise.
pub const DEFAULT_TPU_SENDER_CHANNEL_CAPACITY: usize = 100_000;

/// How many leaders the fast paths send to.
pub const FAST_SEND_MAX_LEADERS: usize = 2;

/// Options of the TPU QUIC event loop.
#[derive(Debug, Clone, Copy)]
pub struct TpuSenderConfig {
    /// Number of local QUIC endpoints.
    pub num_endpoints: usize,
    /// Attempts per validator after connection or stream failures.
    pub max_send_attempt: usize,
    /// Number of upcoming leaders to connect to beforehand; `None` for none.
    pub leader_prediction_lookahead: Option<usize>,
    /// Which of a validator's ports to contact.
    pub tpu_port: TpuPortKind,
    /// Slots of the fanout window; zero sends to the leader of the current
    /// boundary, and to the next one near its end.
    pub send_fanout_slots: u64,
}

/// Options of a sender and of the services that it relies on.
#[derive(Debug, Clone)]
pub struct YellowstoneTpuSenderConfig<T, I, S, K> {
    /// Options of the TPU QUIC event loop.
    pub tpu: T,
    /// Options of the service that resolves TPU sockets.
    pub tpu_info: I,
    /// Options of the leader schedule service.
    pub schedule: S,
    /// Options of the stake service.
    pub stake: K,
    /// Room in the queue to the TPU event loop.
    pub channel_capacity: usize,
}

impl<T: Default, I: Default, S: Default, K: Default> Default for YellowstoneTpuSenderConfig<
    T,
    I,
    S,
    K,
> {
    fn default() -> (config: Self)
        ensures
            call_ensures(T::default, (), config.tpu),
            call_ensures(I::default, (), config.tpu_info),
            call_ensures(S::default, (), config.schedule),
            call_ensures(K::default, (), config.stake),
            config.channel_capacity == DEFAULT_TPU_SENDER_CHANNEL_CAPACITY,
    {
        YellowstoneTpuSenderConfig {
            tpu: T::default(),
            tpu_info: I::default(),
            schedule: S::default(),
            stake: K::default(),
            channel_capacity: DEFAULT_TPU_SENDER_CHANNEL_CAPACITY,
        }
    }
}

/// Where to connect to.
#[derive(Debug, Clone)]
pub struct Endpoints {
    /// URL of the RPC endpoint.
    pub rpc: String,
    /// URL of the gRPC endpoint.
    pub grpc: String,
    /// Token for the gRPC endpoint, where it asks for one.
    pub grpc_x_token: Option<String>,
}

} // verus!
