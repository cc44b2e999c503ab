use vstd::prelude::*;

verus! {

/// `AUDIOCLIENT_ACTIVATION_TYPE_PROCESS_LOOPBACK`.
pub const ACTIVATION_TYPE_PROCESS_LOOPBACK: u32 = 1;

/// `PROCESS_LOOPBACK_MODE_INCLUDE_TARGET_PROCESS_TREE`.
pub const LOOPBACK_MODE_INCLUDE_TARGET_PROCESS_TREE: u32 = 0;

/// Process loopback parameters of an audio-client activation.
#[allow(non_camel_case_types)]
#[allow(non_snake_case)]
#[derive(Debug, Clone, Copy, PartialEq, Eq, Structural)]
pub struct AUDIOCLIENT_PROCESS_LOOPBACK_PARAMS {
    pub TargetProcessId: u32,
    pub ProcessLoopbackMode: u32,
}

/// Activation parameters of an audio client.
#[allow(non_camel_case_types)]
#[allow(non_snake_case)]
#[derive(Debug, Clone, Copy, PartialEq, Eq, Structural)]
pub struct AUDIOCLIENT_ACTIVATION_PARAMS {
    pub ActivationType: u32,
    pub ProcessLoopbackParams: AUDIOCLIENT_PROCESS_LOOPBACK_PARAMS,
}

/// Parameters that activate loopback capture of `target_pid` together with
/// its whole process tree.
pub fn process_loopback_activation_params(target_pid: u32) -> (params:
    AUDIOCLIENT_ACTIVATION_PARAMS)
    ensures
        params.ActivationType == ACTIVATION_TYPE_PROCESS_LOOPBACK,
        params.ProcessLoopbackParams.TargetProcessId == target_pid,
        params.ProcessLoopbackParams.ProcessLoopbackMode
            == LOOPBACK_MODE_INCLUDE_TARGET_PROCESS_TREE,
{
    AUDIOCLIENT_ACTIVATION_PARAMS {
        ActivationType: ACTIVATION_TYPE_PROCESS_LOOPBACK,
        ProcessLoopbackParams: AUDIOCLIENT_PROCESS_LOOPBACK_PARAMS {
            TargetProcessId: target_pid,
            ProcessLoopbackMode: LOOPBACK_MODE_INCLUDE_TARGET_PROCESS_TREE,
        },
    }
}

} // verus!
