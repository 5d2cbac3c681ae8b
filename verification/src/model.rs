//! Choices the user makes: receive and send modes, encodings, line endings and serial parameters.

use vstd::prelude::*;

use crate::chars::{trim, trimmed};

verus! {

pub const MIN_BAUD_RATE: u32 = 1;

pub const MAX_BAUD_RATE: u32 = 4_000_000;

#[derive(Debug, Clone, Copy, PartialEq, Eq, Structural)]
pub enum ReceiveMode {
    Text,
    Hex,
    Terminal,
}

impl ReceiveMode {
    pub fn label(self) -> (label: &'static str)
        ensures
            label@ == match self {
                ReceiveMode::Text => "文本"@,
                ReceiveMode::Hex => "HEX"@,
                ReceiveMode::Terminal => "终端"@,
            },
    {
        match self {
            ReceiveMode::Text => "文本",
            ReceiveMode::Hex => "HEX",
            ReceiveMode::Terminal => "终端",
        }
    }
}

#[derive(Debug, Clone, Copy, PartialEq, Eq, Structural)]
pub enum SendMode {
    Text,
    Hex,
}

impl SendMode {
    pub fn label(self) -> (label: &'static str)
        ensures
            label@ == match self {
                SendMode::Text => "文本"@,
                SendMode::Hex => "HEX"@,
            },
    {
        match self {
            SendMode::Text => "文本",
            SendMode::Hex => "HEX",
        }
    }
}

#[derive(Debug, Clone, Copy, PartialEq, Eq, Structural)]
pub enum TextEncoding {
    Utf8,
    Gbk,
}

impl TextEncoding {
    pub fn label(self) -> (label: &'static str)
        ensures
            label@ == match self {
                TextEncoding::Utf8 => "UTF-8"@,
                TextEncoding::Gbk => "GBK"@,
            },
    {
        match self {
            TextEncoding::Utf8 => "UTF-8",
            TextEncoding::Gbk => "GBK",
        }
    }
}

#[derive(Debug, Clone, Copy, PartialEq, Eq, Structural)]
pub enum LineEnding {
    Empty,
    Cr,
    Lf,
    CrLf,
}

/// The bytes that end a line.
pub open spec fn line_ending_bytes(line_ending: LineEnding) -> Seq<u8> {
    match line_ending {
        LineEnding::Empty => seq![],
        LineEnding::Cr => seq![0x0du8],
        LineEnding::Lf => seq![0x0au8],
        LineEnding::CrLf => seq![0x0du8, 0x0au8],
    }
}

impl LineEnding {
    pub fn label(self) -> (label: &'static str)
        ensures
            label@ == match self {
                LineEnding::Empty => "无"@,
                LineEnding::Cr => "CR"@,
                LineEnding::Lf => "LF"@,
                LineEnding::CrLf => "CRLF"@,
            },
    {
        match self {
            LineEnding::Empty => "无",
            LineEnding::Cr => "CR",
            LineEnding::Lf => "LF",
            LineEnding::CrLf => "CRLF",
        }
    }

    pub fn bytes(self) -> (bytes: Vec<u8>)
        ensures
            bytes@ == line_ending_bytes(self),
    {
        match self {
            LineEnding::Empty => Vec::new(),
            LineEnding::Cr => vec![0x0d],
            LineEnding::Lf => vec![0x0a],
            LineEnding::CrLf => vec![0x0d, 0x0a],
        }
    }
}

#[derive(Debug, Clone, Copy, PartialEq, Eq, Structural)]
pub enum DataBits {
    Five,
    Six,
    Seven,
    Eight,
}

#[derive(Debug, Clone, Copy, PartialEq, Eq, Structural)]
pub enum StopBits {
    One,
    Two,
}

#[derive(Debug, Clone, Copy, PartialEq, Eq, Structural)]
pub enum Parity {
    Off,
    Odd,
    Even,
}

#[derive(Debug, Clone, Copy, PartialEq, Eq, Structural)]
pub enum FlowControl {
    Off,
    Software,
    Hardware,
}

#[derive(Debug, PartialEq, Eq)]
pub struct SerialConfig {
    pub port_name: String,
    pub baud_rate: u32,
    pub data_bits: DataBits,
    pub stop_bits: StopBits,
    pub parity: Parity,
    pub flow_control: FlowControl,
    pub dtr: bool,
    pub rts: bool,
}

/// What a configuration says.
#[verifier::ext_equal]
pub struct ConfigView {
    pub port_name: Seq<char>,
    pub baud_rate: u32,
    pub data_bits: DataBits,
    pub stop_bits: StopBits,
    pub parity: Parity,
    pub flow_control: FlowControl,
    pub dtr: bool,
    pub rts: bool,
}

impl ConfigView {
    pub open spec fn valid(self) -> bool {
        trim(self.port_name).len() > 0 && baud_rate_in_range(self.baud_rate as int)
    }
}

impl View for SerialConfig {
    type V = ConfigView;

    open spec fn view(&self) -> ConfigView {
        ConfigView {
            port_name: self.port_name@,
            baud_rate: self.baud_rate,
            data_bits: self.data_bits,
            stop_bits: self.stop_bits,
            parity: self.parity,
            flow_control: self.flow_control,
            dtr: self.dtr,
            rts: self.rts,
        }
    }
}

impl Clone for SerialConfig {
    fn clone(&self) -> (config: Self)
        ensures
            config@ == self@,
    {
        SerialConfig {
            port_name: self.port_name.clone(),
            baud_rate: self.baud_rate,
            data_bits: self.data_bits,
            stop_bits: self.stop_bits,
            parity: self.parity,
            flow_control: self.flow_control,
            dtr: self.dtr,
            rts: self.rts,
        }
    }
}

impl Default for SerialConfig {
    fn default() -> (config: Self)
        ensures
            config.port_name@ == Seq::<char>::empty(),
            config.baud_rate == 115_200,
            config.data_bits == DataBits::Eight,
            config.stop_bits == StopBits::One,
            config.parity == Parity::Off,
            config.flow_control == FlowControl::Off,
            !config.dtr,
            !config.rts,
    {
        SerialConfig {
            port_name: String::new(),
            baud_rate: 115_200,
            data_bits: DataBits::Eight,
            stop_bits: StopBits::One,
            parity: Parity::Off,
            flow_control: FlowControl::Off,
            dtr: false,
            rts: false,
        }
    }
}

/// A baud rate that a port can be opened with.
pub open spec fn baud_rate_in_range(value: int) -> bool {
    MIN_BAUD_RATE <= value <= MAX_BAUD_RATE
}

impl SerialConfig {
    pub open spec fn is_valid(&self) -> bool {
        self@.valid()
    }

    pub fn validate(&self) -> (result: Result<(), &'static str>)
        ensures
            result is Ok <==> self.is_valid(),
            result matches Err(message) ==> message@ == if trim(self.port_name@).len() == 0 {
                "请选择串口"@
            } else {
                "波特率必须在 1 到 4,000,000 之间"@
            },
    {
        if trimmed(self.port_name.as_str()).is_empty() {
            return Err("请选择串口");
        }
        if self.baud_rate < MIN_BAUD_RATE || self.baud_rate > MAX_BAUD_RATE {
            return Err("波特率必须在 1 到 4,000,000 之间");
        }
        Ok(())
    }
}

pub open spec fn is_digit(c: char) -> bool {
    '0' <= c <= '9'
}

/// The number that a row of decimal digits stands for.
pub open spec fn decimal_value(digits: Seq<char>) -> nat
    decreases digits.len(),
{
    if digits.len() == 0 {
        0
    } else {
        (decimal_value(digits.drop_last()) * 10 + (digits.last() as int - '0' as int)) as nat
    }
}

/// Further digits never make the number smaller.
pub proof fn decimal_value_grows(digits: Seq<char>, i: int)
    requires
        0 <= i <= digits.len(),
        forall|k: int| 0 <= k < digits.len() ==> is_digit(digits[k]),
    ensures
        decimal_value(digits.take(i)) <= decimal_value(digits),
    decreases digits.len(),
{
    if i < digits.len() {
        decimal_value_grows(digits.drop_last(), i);
        assert(digits.drop_last().take(i) == digits.take(i));
    } else {
        assert(digits.take(i) == digits);
    }
}

/// The baud rates that are offered.
pub open spec fn offered_baud_rates() -> Seq<u32> {
    seq![
        300u32, 600u32, 1_200u32, 2_400u32, 4_800u32, 9_600u32, 19_200u32, 38_400u32, 57_600u32,
        115_200u32, 230_400u32, 460_800u32, 576_000u32, 921_600u32, 1_000_000u32, 2_000_000u32,
        3_000_000u32, 4_000_000u32,
    ]
}

/// The baud rates that are offered. All of them are in range.
pub fn common_baud_rates() -> (rates: Vec<u32>)
    ensures
        rates@ == offered_baud_rates(),
        forall|i: int| 0 <= i < rates@.len() ==> baud_rate_in_range(#[trigger] rates@[i] as int),
{
    let rates: Vec<u32> = vec![
        300, 600, 1_200, 2_400, 4_800, 9_600, 19_200, 38_400, 57_600, 115_200, 230_400, 460_800,
        576_000, 921_600, 1_000_000, 2_000_000, 3_000_000, 4_000_000,
    ];
    assert(rates@ =~= offered_baud_rates());
    rates
}

/// Accepts a decimal number from 1 to 4,000,000, with spaces around it and leading zeros.
pub fn parse_baud_rate(input: &str) -> (result: Result<u32, &'static str>)
    ensures
        match result {
            Ok(value) => {
                &&& trim(input@).len() > 0
                &&& forall|i: int| 0 <= i < trim(input@).len() ==> is_digit(trim(input@)[i])
                &&& value == decimal_value(trim(input@))
                &&& baud_rate_in_range(value as int)
            },
            Err(message) => {
                ||| trim(input@).len() == 0 && message@ == "请输入波特率"@
                ||| trim(input@).len() > 0 && message@ == "波特率只能包含数字"@ && exists|i: int|
                    0 <= i < trim(input@).len() && !is_digit(trim(input@)[i])
                ||| trim(input@).len() > 0 && message@ == "波特率必须在 1 到 4,000,000 之间"@ && (
                forall|i: int| 0 <= i < trim(input@).len() ==> is_digit(trim(input@)[i]))
                    && !baud_rate_in_range(decimal_value(trim(input@)) as int)
            },
        },
{
    let digits = trimmed(input);
    if digits.is_empty() {
        return Err("请输入波特率");
    }
    let mut i: usize = 0;
    while i < digits.len()
        invariant
            i <= digits.len(),
            digits@ == trim(input@),
            forall|k: int| 0 <= k < i ==> is_digit(digits@[k]),
        decreases digits.len() - i,
    {
        if digits[i] < '0' || digits[i] > '9' {
            assert(!is_digit(trim(input@)[i as int]));
            return Err("波特率只能包含数字");
        }
        i += 1;
    }
    let mut value: u32 = 0;
    let mut i: usize = 0;
    while i < digits.len()
        invariant
            i <= digits.len(),
            digits@ == trim(input@),
            digits@.len() > 0,
            forall|k: int| 0 <= k < digits@.len() ==> is_digit(digits@[k]),
            value == decimal_value(digits@.take(i as int)),
            value <= MAX_BAUD_RATE,
        decreases digits.len() - i,
    {
        let digit: u32 = digits[i] as u32 - '0' as u32;
        assert(digits@.take(i + 1).drop_last() == digits@.take(i as int));
        value = value * 10 + digit;
        if value > MAX_BAUD_RATE {
            proof {
                decimal_value_grows(digits@, i + 1);
            }
            return Err("波特率必须在 1 到 4,000,000 之间");
        }
        i += 1;
    }
    assert(digits@.take(i as int) == digits@);
    if value < MIN_BAUD_RATE {
        return Err("波特率必须在 1 到 4,000,000 之间");
    }
    Ok(value)
}

/// Something that was sent, kept to be sent again.
#[derive(Debug, PartialEq, Eq)]
pub struct HistoryItem {
    pub mode: SendMode,
    pub input: String,
}

/// What a history item says.
#[verifier::ext_equal]
pub struct HistoryView {
    pub mode: SendMode,
    pub input: Seq<char>,
}

impl View for HistoryItem {
    type V = HistoryView;

    open spec fn view(&self) -> HistoryView {
        HistoryView { mode: self.mode, input: self.input@ }
    }
}

impl Clone for HistoryItem {
    fn clone(&self) -> (item: Self)
        ensures
            item@ == self@,
    {
        HistoryItem { mode: self.mode, input: self.input.clone() }
    }
}

pub fn data_bits_label(value: DataBits) -> (label: &'static str)
    ensures
        label@ == match value {
            DataBits::Five => "5"@,
            DataBits::Six => "6"@,
            DataBits::Seven => "7"@,
            DataBits::Eight => "8"@,
        },
{
    match value {
        DataBits::Five => "5",
        DataBits::Six => "6",
        DataBits::Seven => "7",
        DataBits::Eight => "8",
    }
}

pub fn stop_bits_label(value: StopBits) -> (label: &'static str)
    ensures
        label@ == match value {
            StopBits::One => "1"@,
            StopBits::Two => "2"@,
        },
{
    match value {
        StopBits::One => "1",
        StopBits::Two => "2",
    }
}

pub fn parity_label(value: Parity) -> (label: &'static str)
    ensures
        label@ == match value {
            Parity::Off => "无校验"@,
            Parity::Odd => "奇校验"@,
            Parity::Even => "偶校验"@,
        },
{
    match value {
        Parity::Off => "无校验",
        Parity::Odd => "奇校验",
        Parity::Even => "偶校验",
    }
}

pub fn flow_control_label(value: FlowControl) -> (label: &'static str)
    ensures
        label@ == match value {
            FlowControl::Off => "无流控"@,
            FlowControl::Software => "软件"@,
            FlowControl::Hardware => "硬件"@,
        },
{
    match value {
        FlowControl::Off => "无流控",
        FlowControl::Software => "软件",
        FlowControl::Hardware => "硬件",
    }
}

/// The baud rates that are offered grow, and a port can be opened with each of them.
pub proof fn offered_rates_can_be_used()
    ensures
        forall|i: int, j: int|
            0 <= i < j < offered_baud_rates().len() ==> #[trigger] offered_baud_rates()[i]
                < #[trigger] offered_baud_rates()[j],
        forall|i: int|
            0 <= i < offered_baud_rates().len() ==> 1 <= #[trigger] offered_baud_rates()[i]
                <= 4_000_000,
        offered_baud_rates().contains(9_600),
        offered_baud_rates().contains(115_200),
        offered_baud_rates().contains(921_600),
        offered_baud_rates().contains(4_000_000),
{
    assert(offered_baud_rates()[5] == 9_600);
    assert(offered_baud_rates()[9] == 115_200);
    assert(offered_baud_rates()[13] == 921_600);
    assert(offered_baud_rates()[17] == 4_000_000);
}

/// A baud rate from one to four million can be used, and no other.
pub proof fn rates_that_can_be_used(value: int)
    ensures
        baud_rate_in_range(value) <==> 1 <= value <= 4_000_000,
{
}

} // verus!
