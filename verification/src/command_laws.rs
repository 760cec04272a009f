//! What holds between the two directions of the command model.
use crate::ascii::{ascii_bytes, is_word, spec_lower};
use crate::commands::{
    spec_parse_command, spec_render, spec_render_items, Command, CommandError, ReplConf,
};
use crate::decimal::{lemma_parse_int_digits, lemma_parse_nat_digits};
use vstd::prelude::*;

verus! {

/// Two words that differ at place `i`, beyond case, do not spell each other.
pub proof fn lemma_words_differ(a: Seq<char>, b: Seq<char>, i: int)
    requires
        a.len() != b.len() || (0 <= i < a.len() && spec_lower(a[i] as u8) != spec_lower(
            b[i] as u8,
        )),
    ensures
        !is_word(ascii_bytes(a), b),
{
    if a.len() == b.len() {
        assert(ascii_bytes(a)[i] == a[i] as u8);
        assert(ascii_bytes(b)[i] == b[i] as u8);
    }
}

/// The request name of each command is read as that command and no other.
pub proof fn lemma_names()
    ensures
        is_word(ascii_bytes("PING"@), "ping"@),
        !is_word(ascii_bytes("ECHO"@), "ping"@),
        is_word(ascii_bytes("ECHO"@), "echo"@),
        !is_word(ascii_bytes("SET"@), "ping"@),
        !is_word(ascii_bytes("SET"@), "echo"@),
        is_word(ascii_bytes("SET"@), "set"@),
        !is_word(ascii_bytes("GET"@), "ping"@),
        !is_word(ascii_bytes("GET"@), "echo"@),
        !is_word(ascii_bytes("GET"@), "set"@),
        is_word(ascii_bytes("GET"@), "get"@),
        !is_word(ascii_bytes("INFO"@), "ping"@),
        !is_word(ascii_bytes("INFO"@), "echo"@),
        !is_word(ascii_bytes("INFO"@), "set"@),
        !is_word(ascii_bytes("INFO"@), "get"@),
        is_word(ascii_bytes("INFO"@), "info"@),
        !is_word(ascii_bytes("REPLCONF"@), "ping"@),
        !is_word(ascii_bytes("REPLCONF"@), "echo"@),
        !is_word(ascii_bytes("REPLCONF"@), "set"@),
        !is_word(ascii_bytes("REPLCONF"@), "get"@),
        !is_word(ascii_bytes("REPLCONF"@), "info"@),
        is_word(ascii_bytes("REPLCONF"@), "replconf"@),
        !is_word(ascii_bytes("PSYNC"@), "ping"@),
        !is_word(ascii_bytes("PSYNC"@), "echo"@),
        !is_word(ascii_bytes("PSYNC"@), "set"@),
        !is_word(ascii_bytes("PSYNC"@), "get"@),
        !is_word(ascii_bytes("PSYNC"@), "info"@),
        !is_word(ascii_bytes("PSYNC"@), "replconf"@),
        is_word(ascii_bytes("PSYNC"@), "psync"@),
        !is_word(ascii_bytes("WAIT"@), "ping"@),
        !is_word(ascii_bytes("WAIT"@), "echo"@),
        !is_word(ascii_bytes("WAIT"@), "set"@),
        !is_word(ascii_bytes("WAIT"@), "get"@),
        !is_word(ascii_bytes("WAIT"@), "info"@),
        !is_word(ascii_bytes("WAIT"@), "replconf"@),
        !is_word(ascii_bytes("WAIT"@), "psync"@),
        is_word(ascii_bytes("WAIT"@), "wait"@),
{
    reveal_strlit("PING");
    reveal_strlit("ECHO");
    reveal_strlit("SET");
    reveal_strlit("GET");
    reveal_strlit("INFO");
    reveal_strlit("REPLCONF");
    reveal_strlit("PSYNC");
    reveal_strlit("WAIT");
    reveal_strlit("ping");
    reveal_strlit("echo");
    reveal_strlit("set");
    reveal_strlit("get");
    reveal_strlit("info");
    reveal_strlit("replconf");
    reveal_strlit("psync");
    reveal_strlit("wait");
    lemma_words_differ("ECHO"@, "ping"@, 0);
    lemma_words_differ("SET"@, "ping"@, 0);
    lemma_words_differ("SET"@, "echo"@, 0);
    lemma_words_differ("GET"@, "ping"@, 0);
    lemma_words_differ("GET"@, "echo"@, 0);
    lemma_words_differ("GET"@, "set"@, 0);
    lemma_words_differ("INFO"@, "ping"@, 0);
    lemma_words_differ("INFO"@, "echo"@, 0);
    lemma_words_differ("INFO"@, "set"@, 0);
    lemma_words_differ("INFO"@, "get"@, 0);
    lemma_words_differ("REPLCONF"@, "ping"@, 0);
    lemma_words_differ("REPLCONF"@, "echo"@, 0);
    lemma_words_differ("REPLCONF"@, "set"@, 0);
    lemma_words_differ("REPLCONF"@, "get"@, 0);
    lemma_words_differ("REPLCONF"@, "info"@, 0);
    lemma_words_differ("PSYNC"@, "ping"@, 1);
    lemma_words_differ("PSYNC"@, "echo"@, 0);
    lemma_words_differ("PSYNC"@, "set"@, 0);
    lemma_words_differ("PSYNC"@, "get"@, 0);
    lemma_words_differ("PSYNC"@, "info"@, 0);
    lemma_words_differ("PSYNC"@, "replconf"@, 0);
    lemma_words_differ("WAIT"@, "ping"@, 0);
    lemma_words_differ("WAIT"@, "echo"@, 0);
    lemma_words_differ("WAIT"@, "set"@, 0);
    lemma_words_differ("WAIT"@, "get"@, 0);
    lemma_words_differ("WAIT"@, "info"@, 0);
    lemma_words_differ("WAIT"@, "replconf"@, 0);
    lemma_words_differ("WAIT"@, "psync"@, 0);
}

/// The names of the `REPLCONF` sub-commands, of the `PX` option and of the
/// `INFO` section are read as themselves and no other.
pub proof fn lemma_option_names()
    ensures
        is_word(ascii_bytes("PX"@), "px"@),
        is_word(ascii_bytes("REPLICATION"@), "replication"@),
        is_word(ascii_bytes("LISTENING-PORT"@), "listening-port"@),
        !is_word(ascii_bytes("CAPA"@), "listening-port"@),
        is_word(ascii_bytes("CAPA"@), "capa"@),
        !is_word(ascii_bytes("GETACK"@), "listening-port"@),
        !is_word(ascii_bytes("GETACK"@), "capa"@),
        is_word(ascii_bytes("GETACK"@), "getack"@),
        !is_word(ascii_bytes("ACK"@), "listening-port"@),
        !is_word(ascii_bytes("ACK"@), "capa"@),
        !is_word(ascii_bytes("ACK"@), "getack"@),
        is_word(ascii_bytes("ACK"@), "ack"@),
{
    reveal_strlit("PX");
    reveal_strlit("px");
    reveal_strlit("REPLICATION");
    reveal_strlit("replication");
    reveal_strlit("LISTENING-PORT");
    reveal_strlit("listening-port");
    reveal_strlit("CAPA");
    reveal_strlit("capa");
    reveal_strlit("GETACK");
    reveal_strlit("getack");
    reveal_strlit("ACK");
    reveal_strlit("ack");
    lemma_words_differ("CAPA"@, "listening-port"@, 0);
    lemma_words_differ("GETACK"@, "listening-port"@, 0);
    lemma_words_differ("GETACK"@, "capa"@, 0);
    lemma_words_differ("ACK"@, "listening-port"@, 0);
    lemma_words_differ("ACK"@, "capa"@, 0);
    lemma_words_differ("ACK"@, "getack"@, 0);
}

/// Every request is read back from the frame that asks for it.
pub proof fn lemma_parse_render(c: Command)
    ensures
        spec_parse_command(spec_render(c)) == Ok::<Command, CommandError>(c),
{
    lemma_names();
    lemma_option_names();
    let items = spec_render_items(c);
    match c {
        Command::Echo(text) => {},
        Command::Ping => {},
        Command::SetKey(opts) => {
            match opts.expire {
                Some(ms) => {
                    lemma_parse_nat_digits(ms as nat);
                },
                None => {},
            }
        },
        Command::Get(key) => {},
        Command::Info(section) => {},
        Command::ReplConf(conf) => {
            match conf {
                ReplConf::ListeningPort(port) => {
                    lemma_parse_nat_digits(port as nat);
                },
                ReplConf::Capability(capa) => {},
                ReplConf::GetAck(ack) => {},
                ReplConf::Ack(offset) => {
                    lemma_parse_int_digits(offset as int);
                },
            }
        },
        Command::PSync(repl_id, offset) => {
            lemma_parse_int_digits(offset as int);
        },
        Command::Wait(replicas, timeout) => {
            lemma_parse_int_digits(replicas as int);
            lemma_parse_nat_digits(timeout as nat);
        },
    }
}

} // verus!
