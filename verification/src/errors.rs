use vstd::prelude::*;
use vstd::string::StringExecFns;

verus! {

/// What a request of the control surface can fail with.
#[derive(Debug)]
pub enum ApiError {
    PresetNotFound(String),
    CommandSendError,
    SimulationAlreadyRunning,
    SimulationNotRunning,
    InvalidRequest(String),
    InvalidTps(u32),
}

pub type ApiResult<T> = Result<T, ApiError>;

/// The character of one decimal digit.
pub open spec fn digit_char(d: nat) -> char {
    if d == 0 {
        '0'
    } else if d == 1 {
        '1'
    } else if d == 2 {
        '2'
    } else if d == 3 {
        '3'
    } else if d == 4 {
        '4'
    } else if d == 5 {
        '5'
    } else if d == 6 {
        '6'
    } else if d == 7 {
        '7'
    } else if d == 8 {
        '8'
    } else {
        '9'
    }
}

/// The decimal digits of `n`, the most significant first, without leading zeros.
pub open spec fn decimal_digits(n: nat) -> Seq<char>
    decreases n,
{
    if n < 10 {
        seq![digit_char(n)]
    } else {
        decimal_digits(n / 10).push(digit_char(n % 10))
    }
}

/// The status code that answers a request which failed with `error`: 404 for what is
/// not there, 409 for what the run state forbids, 400 for a request that cannot be
/// served as it is, 500 for a fault of the service.
pub open spec fn status_of(error: ApiError) -> u16 {
    match error {
        ApiError::PresetNotFound(_) => 404,
        ApiError::CommandSendError => 500,
        ApiError::SimulationAlreadyRunning => 409,
        ApiError::SimulationNotRunning => 409,
        ApiError::InvalidRequest(_) => 400,
        ApiError::InvalidTps(_) => 400,
    }
}

/// The text that tells a caller what `error` is.
pub open spec fn message_of(error: ApiError) -> Seq<char> {
    match error {
        ApiError::PresetNotFound(name) => "Preset not found: "@ + name@,
        ApiError::CommandSendError => "Failed to send command to simulation"@,
        ApiError::SimulationAlreadyRunning => "Simulation is already running"@,
        ApiError::SimulationNotRunning => "Simulation is not running"@,
        ApiError::InvalidRequest(text) => text@,
        ApiError::InvalidTps(tps) => "Invalid TPS value: "@ + decimal_digits(tps as nat)
            + ". Must be between 1 and 1000"@,
    }
}

impl ApiError {
    pub fn status_code(&self) -> (code: u16)
        ensures
            code == status_of(*self),
    {
        match self {
            ApiError::PresetNotFound(_) => 404,
            ApiError::CommandSendError => 500,
            ApiError::SimulationAlreadyRunning => 409,
            ApiError::SimulationNotRunning => 409,
            ApiError::InvalidRequest(_) => 400,
            ApiError::InvalidTps(_) => 400,
        }
    }

    pub fn message(&self) -> (text: String)
        ensures
            text@ == message_of(*self),
    {
        match self {
            ApiError::PresetNotFound(name) => {
                let mut text = "Preset not found: ".to_owned();
                text.append(name.as_str());
                text
            },
            ApiError::CommandSendError => "Failed to send command to simulation".to_owned(),
            ApiError::SimulationAlreadyRunning => "Simulation is already running".to_owned(),
            ApiError::SimulationNotRunning => "Simulation is not running".to_owned(),
            ApiError::InvalidRequest(text) => text.clone(),
            ApiError::InvalidTps(tps) => {
                let mut text = "Invalid TPS value: ".to_owned();
                append_decimal(&mut text, *tps);
                text.append(". Must be between 1 and 1000");
                text
            },
        }
    }
}

/// Writes the decimal digits of `n` behind `text`.
pub fn append_decimal(text: &mut String, n: u32)
    ensures
        final(text)@ == old(text)@ + decimal_digits(n as nat),
    decreases n,
{
    if n >= 10 {
        append_decimal(text, n / 10);
    }
    text.append(digit_text(n % 10));
    proof {
        if n >= 10 {
            assert(old(text)@ + decimal_digits((n / 10) as nat) + seq![digit_char((n % 10) as nat)]
                =~= old(text)@ + decimal_digits(n as nat));
        }
    }
}

/// The text of one decimal digit.
fn digit_text(d: u32) -> (text: &'static str)
    requires
        d < 10,
    ensures
        text@ == seq![digit_char(d as nat)],
{
    proof {
        reveal_strlit("0");
        reveal_strlit("1");
        reveal_strlit("2");
        reveal_strlit("3");
        reveal_strlit("4");
        reveal_strlit("5");
        reveal_strlit("6");
        reveal_strlit("7");
        reveal_strlit("8");
        reveal_strlit("9");
    }
    let text = if d == 0 {
        "0"
    } else if d == 1 {
        "1"
    } else if d == 2 {
        "2"
    } else if d == 3 {
        "3"
    } else if d == 4 {
        "4"
    } else if d == 5 {
        "5"
    } else if d == 6 {
        "6"
    } else if d == 7 {
        "7"
    } else if d == 8 {
        "8"
    } else {
        "9"
    };
    assert(text@ =~= seq![digit_char(d as nat)]);
    text
}

} // verus!
