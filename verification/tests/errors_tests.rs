use cellular_automata_backend::errors::{append_decimal, ApiError};

#[test]
fn each_error_has_its_status_code() {
    assert_eq!(ApiError::PresetNotFound("x".to_string()).status_code(), 404);
    assert_eq!(ApiError::CommandSendError.status_code(), 500);
    assert_eq!(ApiError::SimulationAlreadyRunning.status_code(), 409);
    assert_eq!(ApiError::SimulationNotRunning.status_code(), 409);
    assert_eq!(ApiError::InvalidRequest("x".to_string()).status_code(), 400);
    assert_eq!(ApiError::InvalidTps(0).status_code(), 400);
}

#[test]
fn each_error_has_its_message() {
    assert_eq!(
        ApiError::PresetNotFound("Glidr".to_string()).message(),
        "Preset not found: Glidr"
    );
    assert_eq!(ApiError::CommandSendError.message(), "Failed to send command to simulation");
    assert_eq!(ApiError::SimulationAlreadyRunning.message(), "Simulation is already running");
    assert_eq!(ApiError::SimulationNotRunning.message(), "Simulation is not running");
    assert_eq!(
        ApiError::InvalidRequest("Simulation is not paused".to_string()).message(),
        "Simulation is not paused"
    );
    assert_eq!(
        ApiError::InvalidTps(5000).message(),
        "Invalid TPS value: 5000. Must be between 1 and 1000"
    );
    assert_eq!(
        ApiError::InvalidTps(0).message(),
        "Invalid TPS value: 0. Must be between 1 and 1000"
    );
}

#[test]
fn decimal_digits_are_those_of_the_standard_library() {
    for n in [0u32, 1, 9, 10, 11, 99, 100, 101, 1000, 1001, 65535, 4000000000, u32::MAX] {
        let mut text = String::from("n=");
        append_decimal(&mut text, n);
        assert_eq!(text, format!("n={}", n));
    }
}
