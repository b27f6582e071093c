use cggmp21::params::{
    validate_aux_gen_parameters, validate_hierarchical_keygen_parameters, validate_keygen_parameters,
    validate_signing_parameters, AuxGenParameterError, HierarchicalThresholdKeygenParameterError,
    KeygenParameterError, SigningParameterError,
};
use cggmp21::execution_id::ExecutionId;
use cggmp21::keygen_protocol::{HierarchicalThresholdKeygenProtocol, KeygenProtocol};

#[test]
fn keygen_parameter_rules() {
    assert_eq!(validate_keygen_parameters(0, 2, 3), Ok(()));
    assert_eq!(
        validate_keygen_parameters(3, 2, 3),
        Err(KeygenParameterError::InvalidPartyIndex { i: 3, n: 3 })
    );
    assert_eq!(validate_keygen_parameters(0, 1, 1), Err(KeygenParameterError::TooFewParties(1)));
    assert_eq!(validate_keygen_parameters(0, 0, 3), Err(KeygenParameterError::ThresholdTooSmall(0)));
    assert_eq!(
        validate_keygen_parameters(0, 4, 3),
        Err(KeygenParameterError::ThresholdTooLarge { t: 4, n: 3 })
    );
}

#[test]
fn hierarchical_keygen_parameter_rules() {
    assert_eq!(validate_hierarchical_keygen_parameters(0, 2, &[0, 1, 0], 3), Ok(()));
    assert_eq!(
        validate_hierarchical_keygen_parameters(0, 2, &[0, 1], 3),
        Err(HierarchicalThresholdKeygenParameterError::InvalidRanksLength { n: 3, len: 2 })
    );
    assert_eq!(
        validate_hierarchical_keygen_parameters(0, 2, &[0, 2, 3], 3),
        Err(HierarchicalThresholdKeygenParameterError::InvalidRank { t: 2, rank: 2 })
    );
    assert_eq!(
        validate_hierarchical_keygen_parameters(5, 2, &[0, 1, 0], 3),
        Err(HierarchicalThresholdKeygenParameterError::InvalidPartyIndex { i: 5, n: 3 })
    );
    assert_eq!(
        validate_hierarchical_keygen_parameters(0, 0, &[0, 1, 0], 3),
        Err(HierarchicalThresholdKeygenParameterError::ThresholdTooSmall(0))
    );
}

#[test]
fn aux_gen_parameter_rules() {
    assert_eq!(validate_aux_gen_parameters(1, 2), Ok(()));
    assert_eq!(
        validate_aux_gen_parameters(2, 2),
        Err(AuxGenParameterError::InvalidPartyIndex { i: 2, n: 2 })
    );
    assert_eq!(validate_aux_gen_parameters(0, 1), Err(AuxGenParameterError::TooFewParties(1)));
}

#[test]
fn signing_parameter_rules() {
    assert_eq!(validate_signing_parameters(1, &[0, 2], 3, Some(2)), Ok(()));
    assert_eq!(
        validate_signing_parameters(0, &[0], 3, Some(2)),
        Err(SigningParameterError::MismatchedAmountOfParties)
    );
    assert_eq!(
        validate_signing_parameters(0, &[0, 1], 3, None),
        Err(SigningParameterError::MismatchedAmountOfParties)
    );
    assert_eq!(
        validate_signing_parameters(2, &[0, 1], 3, Some(2)),
        Err(SigningParameterError::InvalidPartyIndex { i: 2, n: 2 })
    );
    assert_eq!(
        validate_signing_parameters(0, &[0, 3], 3, Some(2)),
        Err(SigningParameterError::InvalidSubIndex)
    );
    assert_eq!(
        validate_signing_parameters(0, &[0, 1], 70000, Some(2)),
        Err(SigningParameterError::TooFewParties(0))
    );
}

// The parameter rules of the key generation protocols, on the inputs of their constructors'
// cases.

#[test]
fn test_keygen_protocol_new_valid_parameters() {
    let i = 0;
    let t = 2;
    let n = 3;
    let _sid = ExecutionId::new(b"test_session");
    let sid_static = ExecutionId::new_static(b"test_session");

    let protocol = KeygenProtocol::new(i, t, n, sid_static, true, true);

    assert!(protocol.is_ok());
    let protocol = protocol.unwrap();
    assert_eq!(protocol.state.i, i);
    assert_eq!(protocol.state.t, t);
    assert_eq!(protocol.state.n, n);
    assert_eq!(protocol.state.reliable_broadcast_enforced, true);
    assert_eq!(protocol.state.hd_enabled, true);
    assert_eq!(protocol.state.sid.as_bytes(), b"test_session");
}

#[test]
fn test_keygen_protocol_new_invalid_party_index() {
    let (i, t, n) = (3u16, 2u16, 3u16);
    let sid_static = ExecutionId::new_static(b"test_session");
    let result = KeygenProtocol::new(i, t, n, sid_static, true, true);
    assert!(result.is_err());
    assert_eq!(result.err().unwrap(), KeygenParameterError::InvalidPartyIndex { i, n });
}

#[test]
fn test_keygen_protocol_new_threshold_too_large() {
    let (i, t, n) = (0u16, 4u16, 3u16);
    let sid_static = ExecutionId::new_static(b"test_session");
    let result = KeygenProtocol::new(i, t, n, sid_static, true, true);
    assert!(result.is_err());
    assert_eq!(result.err().unwrap(), KeygenParameterError::ThresholdTooLarge { t, n });
}

#[test]
fn test_keygen_protocol_new_threshold_too_small() {
    let (i, t, n) = (0u16, 0u16, 3u16);
    let sid_static = ExecutionId::new_static(b"test_session");
    let result = KeygenProtocol::new(i, t, n, sid_static, true, true);
    assert!(result.is_err());
    assert_eq!(result.err().unwrap(), KeygenParameterError::ThresholdTooSmall(t));
}

#[test]
fn test_keygen_protocol_new_too_few_parties() {
    let (i, t, n) = (0u16, 1u16, 1u16);
    let sid_static = ExecutionId::new_static(b"test_session");
    let result = KeygenProtocol::new(i, t, n, sid_static, true, true);
    assert!(result.is_err());
    assert_eq!(result.err().unwrap(), KeygenParameterError::TooFewParties(n));
}

#[test]
fn test_hierarchical_threshold_keygen_protocol_new_valid_parameters() {
    let i = 0;
    let t = 2;
    let ranks = vec![0, 1, 1, 0];
    let n = 4;
    let sid_static = ExecutionId::new_static(b"test_session");

    let protocol = HierarchicalThresholdKeygenProtocol::new(i, t, ranks.clone(), n, sid_static, true, true);

    assert!(protocol.is_ok());
    let protocol = protocol.unwrap();
    assert_eq!(protocol.state.i, i);
    assert_eq!(protocol.state.t, t);
    assert_eq!(protocol.state.ranks, ranks);
    assert_eq!(protocol.state.n, n);
    assert_eq!(protocol.state.reliable_broadcast_enforced, true);
    assert_eq!(protocol.state.hd_enabled, true);
}

#[test]
fn test_hierarchical_threshold_keygen_protocol_invalid_ranks_length() {
    let (i, t, n) = (0u16, 2u16, 4u16);
    let ranks = vec![0u16, 1];
    let sid_static = ExecutionId::new_static(b"test_session");
    let result = HierarchicalThresholdKeygenProtocol::new(i, t, ranks, n, sid_static, true, true);
    assert!(result.is_err());
    assert_eq!(result.err().unwrap(), HierarchicalThresholdKeygenParameterError::InvalidRanksLength { n, len: 2 });
}

#[test]
fn test_hierarchical_threshold_keygen_protocol_invalid_rank() {
    let (i, t, n) = (0u16, 2u16, 4u16);
    let ranks = vec![0u16, 1, 2, 0];
    let sid_static = ExecutionId::new_static(b"test_session");
    let result = HierarchicalThresholdKeygenProtocol::new(i, t, ranks, n, sid_static, true, true);
    assert!(result.is_err());
    assert_eq!(result.err().unwrap(), HierarchicalThresholdKeygenParameterError::InvalidRank { t, rank: 2 });
}
