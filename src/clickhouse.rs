//! A sink connector for a columnar database: configuration, connection address, and the
//! mapping of event rows to typed columns. The network side lives with the caller.
use vstd::prelude::*;
use vstd::string::*;
use crate::errors::{Error, ErrorKind, ErrorView};

verus! {

/// Configuration of the sink.
pub struct ClickhouseConfig {
    pub host: String,
    pub port: Option<u16>,
    pub database: String,
}

impl ClickhouseConfig {
    pub const DEFAULT_PORT: u16 = 9000;
}

/// Which kind of codec a connector needs.
#[derive(PartialEq, Eq, Structural, Clone, Copy, Debug)]
pub enum CodecReq {
    /// Events are handed over as structured values.
    Structured,
    /// Events are handed over as bytes.
    Binary,
}

/// The connector: its configuration.
pub struct Clickhouse {
    config: ClickhouseConfig,
}

/// Builds the connector from its declaration.
pub struct Builder {}

pub open spec fn digit_char(d: nat) -> char {
    if d == 0 { '0' }
    else if d == 1 { '1' }
    else if d == 2 { '2' }
    else if d == 3 { '3' }
    else if d == 4 { '4' }
    else if d == 5 { '5' }
    else if d == 6 { '6' }
    else if d == 7 { '7' }
    else if d == 8 { '8' }
    else { '9' }
}

/// The decimal digits of `n`, most significant first, without leading zeros.
pub open spec fn decimal(n: nat) -> Seq<char>
    decreases n,
{
    if n < 10 {
        seq![digit_char(n)]
    } else {
        decimal(n / 10).push(digit_char(n % 10))
    }
}

/// The address of the database: `tcp://<host>:<port>/<database>?compression=lz4`.
pub open spec fn url_of(host: Seq<char>, port: u16, database: Seq<char>) -> Seq<char> {
    "tcp://"@ + host + ":"@ + decimal(port as nat) + "/"@ + database + "?compression=lz4"@
}

/// The port to connect to: the configured one, else the default.
pub open spec fn effective_port(c: ClickhouseConfig) -> u16 {
    match c.port {
        Some(p) => p,
        None => ClickhouseConfig::DEFAULT_PORT,
    }
}

fn digit_str(d: u64) -> (r: &'static str)
    requires
        d < 10,
    ensures
        r@ == seq![digit_char(d as nat)],
{
    proof {
        reveal_strlit("0");
        reveal_strlit("1");
        reveal_strlit("2");
        reveal_strlit("3");
        reveal_strlit("4");
        reveal_strlit("5");
        reveal_strlit("6");
        reveal_strlit("7");
        reveal_strlit("8");
        reveal_strlit("9");
    }
    if d == 0 { "0" }
    else if d == 1 { "1" }
    else if d == 2 { "2" }
    else if d == 3 { "3" }
    else if d == 4 { "4" }
    else if d == 5 { "5" }
    else if d == 6 { "6" }
    else if d == 7 { "7" }
    else if d == 8 { "8" }
    else { "9" }
}

/// Appends the decimal digits of `n` to `s`.
pub fn push_decimal(s: &mut String, n: u64)
    ensures
        final(s)@ == old(s)@ + decimal(n as nat),
    decreases n,
{
    if n >= 10 {
        push_decimal(s, n / 10);
        s.append(digit_str(n % 10));
        assert(final(s)@ =~= old(s)@ + decimal(n as nat));
    } else {
        s.append(digit_str(n));
    }
}

impl Clickhouse {
    /// A connector with the given configuration.
    pub fn new(config: ClickhouseConfig) -> (r: Clickhouse)
        ensures
            r.config() == config,
    {
        Clickhouse { config }
    }

    /// The configuration the connector was built with.
    pub closed spec fn config(&self) -> ClickhouseConfig {
        self.config
    }

    /// The address to connect to; the default port stands in for a missing one.
    pub fn connection_url(&self) -> (r: String)
        ensures
            r@ == url_of(self.config().host@, effective_port(self.config()), self.config().database@),
    {
        let port = match self.config.port {
            Some(p) => p,
            None => ClickhouseConfig::DEFAULT_PORT,
        };
        let mut url = String::from_str("tcp://");
        url.append(self.config.host.as_str());
        url.append(":");
        push_decimal(&mut url, port as u64);
        url.append("/");
        url.append(self.config.database.as_str());
        url.append("?compression=lz4");
        url
    }

    /// Events reach this connector as structured values.
    pub fn codec_requirements(&self) -> (r: CodecReq)
        ensures
            r == CodecReq::Structured,
    {
        CodecReq::Structured
    }

    /// The sink of this connector, not yet connected, aimed at [`Self::connection_url`].
    pub fn create_sink(&self) -> (r: ClickhouseSink)
        ensures
            r.db_url@ == url_of(self.config().host@, effective_port(self.config()), self.config().database@),
            !r.connected,
    {
        ClickhouseSink { db_url: self.connection_url(), connected: false }
    }
}

impl Builder {
    /// The kind name under which this connector is registered.
    pub fn connector_type(&self) -> (r: String)
        ensures
            r@ == "clickhouse"@,
    {
        String::from_str("clickhouse")
    }

    /// Builds the connector named `alias`; its configuration must be present.
    pub fn from_config(&self, alias: &str, config: Option<ClickhouseConfig>) -> (r: Result<Clickhouse, Error>)
        ensures
            match r {
                Ok(c) => config == Some(c.config()),
                Err(e) => config is None && e@ == ErrorView::MissingConfiguration(alias@),
            },
    {
        match config {
            Some(c) => Ok(Clickhouse::new(c)),
            None => Err(Error::new(ErrorKind::MissingConfiguration(alias.to_owned()))),
        }
    }
}


/// The sink side of the connector: the address it connects to, and whether the caller
/// holds a connection pool for it.
pub struct ClickhouseSink {
    pub db_url: String,
    pub connected: bool,
}

/// Column types the sink can fill.
#[derive(PartialEq, Eq, Structural, Clone, Copy, Debug)]
pub enum ClickHouseType {
    UInt8,
}

/// A scalar value of an event row.
#[derive(Debug, Clone, PartialEq, Eq)]
pub enum Value {
    Null,
    Bool(bool),
    Int(i64),
    UInt(u64),
    Str(String),
}

/// A named value of an event row.
pub struct Field {
    pub name: String,
    pub value: Value,
}

/// A named column of a block to insert, one entry per event row.
#[derive(Debug, Clone, PartialEq, Eq)]
pub struct Column {
    pub name: String,
    pub data: Vec<u8>,
}

/// The value as an unsigned byte, when it is an integer in `0..=255`.
pub open spec fn as_u8(v: Value) -> Option<u8> {
    match v {
        Value::Int(i) => if 0 <= i <= 255 {
            Some(i as u8)
        } else {
            None
        },
        Value::UInt(u) => if u <= 255 {
            Some(u as u8)
        } else {
            None
        },
        _ => None,
    }
}

/// The value of the first of the first `i` fields named `name`.
pub open spec fn field_upto(row: Seq<Field>, name: Seq<char>, i: int) -> Option<Value>
    decreases i,
{
    if i <= 0 {
        None
    } else {
        match field_upto(row, name, i - 1) {
            Some(v) => Some(v),
            None => if row[i - 1].name@ == name {
                Some(row[i - 1].value)
            } else {
                None
            },
        }
    }
}

/// The byte that a row gives column `name`, or why it gives none.
pub open spec fn row_cell(row: Seq<Field>, name: Seq<char>) -> Result<u8, ErrorView> {
    match field_upto(row, name, row.len() as int) {
        None => Err(ErrorView::MissingColumn(name)),
        Some(v) => match as_u8(v) {
            Some(b) => Ok(b),
            None => Err(ErrorView::BadColumnValue(name)),
        },
    }
}

/// The fault of the first of the first `i` rows that gives column `name` no byte.
pub open spec fn column_fault_upto(rows: Seq<Vec<Field>>, name: Seq<char>, i: int) -> Option<ErrorView>
    decreases i,
{
    if i <= 0 {
        None
    } else {
        match column_fault_upto(rows, name, i - 1) {
            Some(f) => Some(f),
            None => match row_cell(rows[i - 1]@, name) {
                Ok(_) => None,
                Err(f) => Some(f),
            },
        }
    }
}

/// The bytes of column `name`, one per row.
pub open spec fn column_values(rows: Seq<Vec<Field>>, name: Seq<char>) -> Seq<u8> {
    Seq::new(rows.len(), |i: int| row_cell(rows[i]@, name)->Ok_0)
}

proof fn lemma_column_fault_stable(rows: Seq<Vec<Field>>, name: Seq<char>, i: int, j: int)
    requires
        i <= j,
        column_fault_upto(rows, name, i) is Some,
    ensures
        column_fault_upto(rows, name, j) == column_fault_upto(rows, name, i),
    decreases j - i,
{
    if i < j {
        lemma_column_fault_stable(rows, name, i, j - 1);
    }
}

/// The value as an unsigned byte, when it is an integer in `0..=255`.
pub fn value_as_u8(v: &Value) -> (r: Option<u8>)
    ensures
        r == as_u8(*v),
{
    match v {
        Value::Int(i) => if 0 <= *i && *i <= 255 {
            Some(*i as u8)
        } else {
            None
        },
        Value::UInt(u) => if *u <= 255 {
            Some(*u as u8)
        } else {
            None
        },
        _ => None,
    }
}

/// The byte that a row gives column `name`.
pub fn row_u8(row: &Vec<Field>, name: &String) -> (r: Result<u8, Error>)
    ensures
        match r {
            Ok(b) => row_cell(row@, name@) == Ok::<u8, ErrorView>(b),
            Err(e) => row_cell(row@, name@) == Err::<u8, ErrorView>(e@),
        },
{
    let mut i: usize = 0;
    while i < row.len()
        invariant
            i <= row@.len(),
            field_upto(row@, name@, i as int) is None,
        decreases row@.len() - i,
    {
        if row[i].name == *name {
            proof {
                assert(field_upto(row@, name@, i as int + 1) == Some(row@[i as int].value));
                lemma_field_stable(row@, name@, i as int + 1, row@.len() as int);
            }
            return match value_as_u8(&row[i].value) {
                Some(b) => Ok(b),
                None => Err(Error::new(ErrorKind::BadColumnValue(name.clone()))),
            };
        }
        i += 1;
    }
    Err(Error::new(ErrorKind::MissingColumn(name.clone())))
}

proof fn lemma_field_stable(row: Seq<Field>, name: Seq<char>, i: int, j: int)
    requires
        i <= j,
        field_upto(row, name, i) is Some,
    ensures
        field_upto(row, name, j) == field_upto(row, name, i),
    decreases j - i,
{
    if i < j {
        lemma_field_stable(row, name, i, j - 1);
    }
}

/// The columns the sink fills, with their types.
pub fn get_column_data() -> (r: Vec<(String, ClickHouseType)>)
    ensures
        r@.len() == 1,
        r@[0].0@ == "age"@,
        r@[0].1 == ClickHouseType::UInt8,
{
    let mut r: Vec<(String, ClickHouseType)> = Vec::new();
    r.push((String::from_str("age"), ClickHouseType::UInt8));
    r
}

/// Appends to `block` the column `name`, holding each row's byte for it; fails on the first
/// row that lacks the field or holds a value that is no byte.
pub fn add_uint8_column(block: Vec<Column>, name: String, rows: &Vec<Vec<Field>>) -> (r: Result<Vec<Column>, Error>)
    ensures
        match r {
            Ok(b) => column_fault_upto(rows@, name@, rows@.len() as int) is None
                && b@.len() == block@.len() + 1
                && b@.subrange(0, block@.len() as int) == block@
                && b@[block@.len() as int].name@ == name@
                && b@[block@.len() as int].data@ == column_values(rows@, name@),
            Err(e) => column_fault_upto(rows@, name@, rows@.len() as int) == Some(e@),
        },
{
    let mut data: Vec<u8> = Vec::new();
    let mut i: usize = 0;
    while i < rows.len()
        invariant
            i <= rows@.len(),
            data@.len() == i,
            column_fault_upto(rows@, name@, i as int) is None,
            forall|k: int| 0 <= k < i ==> row_cell(rows@[k]@, name@) == Ok::<u8, ErrorView>(#[trigger] data@[k]),
        decreases rows@.len() - i,
    {
        match row_u8(&rows[i], &name) {
            Ok(b) => {
                data.push(b);
            },
            Err(e) => {
                proof {
                    lemma_column_fault_stable(rows@, name@, i as int + 1, rows@.len() as int);
                }
                return Err(e);
            },
        }
        i += 1;
    }
    assert(data@ =~= column_values(rows@, name@));
    let mut block = block;
    let ghost before = block@;
    block.push(Column { name, data });
    assert(block@.subrange(0, before.len() as int) =~= before);
    Ok(block)
}

impl ClickhouseSink {
    /// Turns an event's rows into the block to insert: one column per configured column.
    /// Fails at once, touching nothing, when no connection is held.
    pub fn on_event(&self, rows: &Vec<Vec<Field>>) -> (r: Result<Vec<Column>, Error>)
        ensures
            !self.connected ==> (r matches Err(e) && e@ == ErrorView::NoSocket),
            self.connected ==> match r {
                Ok(b) => column_fault_upto(rows@, "age"@, rows@.len() as int) is None
                    && b@.len() == 1
                    && b@[0].name@ == "age"@
                    && b@[0].data@ == column_values(rows@, "age"@),
                Err(e) => column_fault_upto(rows@, "age"@, rows@.len() as int) == Some(e@),
            },
    {
        if !self.connected {
            return Err(Error::new(ErrorKind::NoSocket));
        }
        let columns = get_column_data();
        let mut block: Vec<Column> = Vec::new();
        let mut j: usize = 0;
        while j < columns.len()
            invariant
                self.connected,
                columns@.len() == 1,
                columns@[0].0@ == "age"@,
                j <= 1,
                block@.len() == j,
                j == 1 ==> column_fault_upto(rows@, "age"@, rows@.len() as int) is None
                    && block@[0].name@ == "age"@
                    && block@[0].data@ == column_values(rows@, "age"@),
            decreases columns@.len() - j,
        {
            let name = columns[j].0.clone();
            match columns[j].1 {
                ClickHouseType::UInt8 => {
                    match add_uint8_column(block, name, rows) {
                        Ok(b) => {
                            block = b;
                        },
                        Err(e) => {
                            return Err(e);
                        },
                    }
                },
            }
            j += 1;
        }
        Ok(block)
    }

    /// Every successful write is acknowledged without an explicit reply.
    pub fn auto_ack(&self) -> (r: bool)
        ensures
            r,
    {
        true
    }
}

} // verus!
