//! The closed catalog of violations and their report text.
use vstd::prelude::*;

verus! {

/// A reportable violation: a stable code and a human-readable message.
pub trait Violation {
    fn message(&self) -> String;

    fn code(&self) -> String;
}

/// The Lambda-related violations.
#[derive(Clone, Copy, Debug, PartialEq, Eq, Structural)]
pub enum LambdaViolation {
    MissingLogGroup,
    ARMArchitecture,
    MissingTag,
    MaximumRetryAttempts,
    PowertoolsLogLevel,
    PowertoolsLoggerLogEvent,
    PowertoolsLoggerSampleRate,
}

impl LambdaViolation {
    /// The message text, mathematically.
    pub open spec fn spec_message(self) -> Seq<char> {
        match self {
            LambdaViolation::ARMArchitecture => "Consider using ARM architecture. Lambda functions on ARM can be up to 20% cheaper than equivalent x86 functions."@,
            LambdaViolation::MissingLogGroup => "Lambda function creates a log group automatically when invoked for the first time with no expiry. Please explicitly create a log group with a retention policy."@,
            LambdaViolation::MissingTag => "The Lambda function is missing a tag. Tags are useful for budgeting and identifying areas for cost optimization."@,
            LambdaViolation::MaximumRetryAttempts => "Asynchronously invoked Lambda functions have a default maximum retry attempts set to 2. Consider setting the maximum retry attempts to 0 to prevent unnecessary retries. For example, if your Lambda function is invoked via an SQS queue with 3 retries, a failure event may result in up to 9 retries."@,
            LambdaViolation::PowertoolsLogLevel => "Set the POWERTOOLS_LOG_LEVEL environment variable to appropriate logging levels for different environments when using AWS Lambda Powertools. This helps in reducing logging costs."@,
            LambdaViolation::PowertoolsLoggerLogEvent => "POWERTOOLS_LOGGER_LOG_EVENT logs the full incoming event on every invocation. Disable it outside development to reduce logging costs."@,
            LambdaViolation::PowertoolsLoggerSampleRate => "POWERTOOLS_LOGGER_SAMPLE_RATE differs from the configured sampling rate. Keep debug sampling low to reduce logging costs."@,
        }
    }

    /// The violation code, mathematically.
    pub open spec fn spec_code(self) -> Seq<char> {
        match self {
            LambdaViolation::MissingLogGroup => "LAMBDA-001"@,
            LambdaViolation::ARMArchitecture => "LAMBDA-002"@,
            LambdaViolation::MissingTag => "LAMBDA-003"@,
            LambdaViolation::MaximumRetryAttempts => "LAMBDA-004"@,
            LambdaViolation::PowertoolsLogLevel => "LAMBDA-005"@,
            LambdaViolation::PowertoolsLoggerLogEvent => "LAMBDA-006"@,
            LambdaViolation::PowertoolsLoggerSampleRate => "LAMBDA-007"@,
        }
    }
}

impl Violation for LambdaViolation {
    fn message(&self) -> (r: String)
        ensures
            r@ == self.spec_message(),
    {
        match self {
            LambdaViolation::ARMArchitecture => String::from_str(
                "Consider using ARM architecture. Lambda functions on ARM can be up to 20% cheaper than equivalent x86 functions.",
            ),
            LambdaViolation::MissingLogGroup => String::from_str(
                "Lambda function creates a log group automatically when invoked for the first time with no expiry. Please explicitly create a log group with a retention policy.",
            ),
            LambdaViolation::MissingTag => String::from_str(
                "The Lambda function is missing a tag. Tags are useful for budgeting and identifying areas for cost optimization.",
            ),
            LambdaViolation::MaximumRetryAttempts => String::from_str(
                "Asynchronously invoked Lambda functions have a default maximum retry attempts set to 2. Consider setting the maximum retry attempts to 0 to prevent unnecessary retries. For example, if your Lambda function is invoked via an SQS queue with 3 retries, a failure event may result in up to 9 retries.",
            ),
            LambdaViolation::PowertoolsLogLevel => String::from_str(
                "Set the POWERTOOLS_LOG_LEVEL environment variable to appropriate logging levels for different environments when using AWS Lambda Powertools. This helps in reducing logging costs.",
            ),
            LambdaViolation::PowertoolsLoggerLogEvent => String::from_str(
                "POWERTOOLS_LOGGER_LOG_EVENT logs the full incoming event on every invocation. Disable it outside development to reduce logging costs.",
            ),
            LambdaViolation::PowertoolsLoggerSampleRate => String::from_str(
                "POWERTOOLS_LOGGER_SAMPLE_RATE differs from the configured sampling rate. Keep debug sampling low to reduce logging costs.",
            ),
        }
    }

    fn code(&self) -> (r: String)
        ensures
            r@ == self.spec_code(),
    {
        match self {
            LambdaViolation::MissingLogGroup => String::from_str("LAMBDA-001"),
            LambdaViolation::ARMArchitecture => String::from_str("LAMBDA-002"),
            LambdaViolation::MissingTag => String::from_str("LAMBDA-003"),
            LambdaViolation::MaximumRetryAttempts => String::from_str("LAMBDA-004"),
            LambdaViolation::PowertoolsLogLevel => String::from_str("LAMBDA-005"),
            LambdaViolation::PowertoolsLoggerLogEvent => String::from_str("LAMBDA-006"),
            LambdaViolation::PowertoolsLoggerSampleRate => String::from_str("LAMBDA-007"),
        }
    }
}

/// The CloudWatch log-group violations.
#[derive(Clone, Copy, Debug, PartialEq, Eq, Structural)]
pub enum CloudWatchViolation {
    LogRetentionTooLong,
    NoLogRetention,
    InfrequentAccessLogGroupClass,
}

impl CloudWatchViolation {
    /// The message text, mathematically.
    pub open spec fn spec_message(self) -> Seq<char> {
        match self {
            CloudWatchViolation::LogRetentionTooLong => "The log group retention period is too long. Consider reducing it to save costs and improve log management efficiency."@,
            CloudWatchViolation::NoLogRetention => "The log group has no retention policy. Consider setting a retention policy to save costs and improve log management efficiency."@,
            CloudWatchViolation::InfrequentAccessLogGroupClass => "The log group is using STANDARD class. Consider using INFREQUENT_ACCESS to save costs."@,
        }
    }

    /// The violation code, mathematically.
    pub open spec fn spec_code(self) -> Seq<char> {
        match self {
            CloudWatchViolation::LogRetentionTooLong => "CW-001"@,
            CloudWatchViolation::NoLogRetention => "CW-002"@,
            CloudWatchViolation::InfrequentAccessLogGroupClass => "CW-003"@,
        }
    }
}

impl Violation for CloudWatchViolation {
    fn message(&self) -> (r: String)
        ensures
            r@ == self.spec_message(),
    {
        match self {
            CloudWatchViolation::LogRetentionTooLong => String::from_str(
                "The log group retention period is too long. Consider reducing it to save costs and improve log management efficiency.",
            ),
            CloudWatchViolation::NoLogRetention => String::from_str(
                "The log group has no retention policy. Consider setting a retention policy to save costs and improve log management efficiency.",
            ),
            CloudWatchViolation::InfrequentAccessLogGroupClass => String::from_str(
                "The log group is using STANDARD class. Consider using INFREQUENT_ACCESS to save costs.",
            ),
        }
    }

    fn code(&self) -> (r: String)
        ensures
            r@ == self.spec_code(),
    {
        match self {
            CloudWatchViolation::LogRetentionTooLong => String::from_str("CW-001"),
            CloudWatchViolation::NoLogRetention => String::from_str("CW-002"),
            CloudWatchViolation::InfrequentAccessLogGroupClass => String::from_str("CW-003"),
        }
    }
}

/// Any violation the engine can emit, as one closed tagged union.
#[derive(Clone, Copy, Debug, PartialEq, Eq, Structural)]
pub enum ViolationKind {
    Lambda(LambdaViolation),
    CloudWatch(CloudWatchViolation),
}

impl ViolationKind {
    /// The message text, mathematically.
    pub open spec fn spec_message(self) -> Seq<char> {
        match self {
            ViolationKind::Lambda(v) => v.spec_message(),
            ViolationKind::CloudWatch(v) => v.spec_message(),
        }
    }

    /// The violation code, mathematically.
    pub open spec fn spec_code(self) -> Seq<char> {
        match self {
            ViolationKind::Lambda(v) => v.spec_code(),
            ViolationKind::CloudWatch(v) => v.spec_code(),
        }
    }
}

impl Violation for ViolationKind {
    fn message(&self) -> (r: String)
        ensures
            r@ == self.spec_message(),
    {
        match self {
            ViolationKind::Lambda(v) => v.message(),
            ViolationKind::CloudWatch(v) => v.message(),
        }
    }

    fn code(&self) -> (r: String)
        ensures
            r@ == self.spec_code(),
    {
        match self {
            ViolationKind::Lambda(v) => v.code(),
            ViolationKind::CloudWatch(v) => v.code(),
        }
    }
}

} // verus!
