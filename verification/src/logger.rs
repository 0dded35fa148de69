//! The event logger's text side.
//!
//! Each sync run writes three timestamped log files beside the archive
//! root — completed, ignored and errored — and one human-readable line per
//! event. Which file an event lands in and what its line reads is decided
//! here; opening files and writing is the caller's I/O. Scan events reach
//! no file.
use crate::datetime::valid_dt;
use crate::datetime::PhotoDateTime;
use crate::sync::SynchronizationEvent;
use crate::text::append_pad2;
use crate::text::append_pad4;
use crate::text::pad2_chars;
use crate::text::pad4_chars;
use vstd::prelude::*;

verus! {

/// The three per-run log files.
#[derive(Clone, Copy, Debug, PartialEq, Eq, Structural)]
pub enum LogStream {
    /// `…_CMP.log`: archived images.
    Completed,
    /// `…_IGN.log`: skipped and ignored images.
    Ignored,
    /// `…_ERR.log`: failed images.
    Errored,
}

/// The suffix of a log stream's file name.
pub open spec fn stream_suffix_chars(stream: LogStream) -> Seq<char> {
    match stream {
        LogStream::Completed => "_CMP.log"@,
        LogStream::Ignored => "_IGN.log"@,
        LogStream::Errored => "_ERR.log"@,
    }
}

/// A log file's name: `<YYYYMMDD-HHMM>_<source id>` and the stream suffix.
pub open spec fn log_name_chars(
    now: PhotoDateTime,
    source_id: Seq<char>,
    stream: LogStream,
) -> Seq<char> {
    pad4_chars(now.year as int) + pad2_chars(now.month as int) + pad2_chars(now.day as int) + "-"@
        + pad2_chars(now.hour as int) + pad2_chars(now.minute as int) + "_"@ + source_id
        + stream_suffix_chars(stream)
}

/// The name of one of the run's log files, from the wall-clock time the
/// run started.
pub fn log_file_name(now: &PhotoDateTime, source_id: &str, stream: LogStream) -> (r: String)
    requires
        valid_dt(*now),
    ensures
        r@ == log_name_chars(*now, source_id@, stream),
{
    let mut s = String::new();
    append_pad4(&mut s, now.year);
    append_pad2(&mut s, now.month);
    append_pad2(&mut s, now.day);
    s.append("-");
    append_pad2(&mut s, now.hour);
    append_pad2(&mut s, now.minute);
    s.append("_");
    s.append(source_id);
    match stream {
        LogStream::Completed => s.append("_CMP.log"),
        LogStream::Ignored => s.append("_IGN.log"),
        LogStream::Errored => s.append("_ERR.log"),
    }
    proof {
        assert(s@ =~= log_name_chars(*now, source_id@, stream));
    }
    s
}

/// A path quoted for a log line: double quotes around it, with quotes and
/// backslashes inside escaped.
pub open spec fn quoted_path_chars(s: Seq<char>) -> Seq<char> {
    seq!['"'] + path_esc_chars(s) + seq!['"']
}

/// The escape of a path's characters.
pub open spec fn path_esc_chars(s: Seq<char>) -> Seq<char>
    decreases s.len(),
{
    if s.len() == 0 {
        Seq::empty()
    } else {
        (if s[0] == '"' {
            seq!['\\', '"']
        } else if s[0] == '\\' {
            seq!['\\', '\\']
        } else {
            seq![s[0]]
        }) + path_esc_chars(s.drop_first())
    }
}

/// The rendering of a flag in a log line.
pub open spec fn bool_chars(b: bool) -> Seq<char> {
    if b {
        "true"@
    } else {
        "false"@
    }
}

/// The log line of an event, with the file it belongs in; scan events
/// yield none.
pub open spec fn log_line_chars(evt: SynchronizationEvent) -> Option<(LogStream, Seq<char>)> {
    match evt {
        SynchronizationEvent::Stored { src, dst, generated, partial } => Some(
            (
                LogStream::Completed,
                "src: "@ + quoted_path_chars(src@) + " dst: "@ + quoted_path_chars(dst@)
                    + " gen: "@ + bool_chars(generated) + " par: "@ + bool_chars(partial) + "\n"@,
            ),
        ),
        SynchronizationEvent::Skipped { src, existing } => Some(
            (
                LogStream::Ignored,
                "src: "@ + quoted_path_chars(src@) + " cause: file already exists "@
                    + quoted_path_chars(existing@) + "\n"@,
            ),
        ),
        SynchronizationEvent::Ignored { src, cause } => Some(
            (
                LogStream::Ignored,
                "src: "@ + quoted_path_chars(src@) + " cause: "@ + cause@ + "\n"@,
            ),
        ),
        SynchronizationEvent::Errored { src, cause } => Some(
            (
                LogStream::Errored,
                "src: "@ + quoted_path_chars(src@) + " cause: '"@ + cause@ + "'\n"@,
            ),
        ),
        SynchronizationEvent::ScanProgress { .. } => None,
        SynchronizationEvent::ScanCompleted { .. } => None,
    }
}

/// Escaping distributes over appending one character.
proof fn lemma_path_esc_push(a: Seq<char>, c: char)
    ensures
        path_esc_chars(a.push(c)) == path_esc_chars(a) + path_esc_chars(seq![c]),
    decreases a.len(),
{
    if a.len() == 0 {
        assert(a.push(c)[0] == c);
        assert(a.push(c).drop_first() =~= Seq::<char>::empty());
        assert(path_esc_chars(Seq::<char>::empty()) =~= Seq::<char>::empty());
        assert(seq![c].drop_first() =~= Seq::<char>::empty());
        assert(path_esc_chars(a.push(c)) =~= path_esc_chars(a) + path_esc_chars(seq![c]));
    } else {
        assert(a.push(c)[0] == a[0]);
        assert(a.push(c).drop_first() =~= a.drop_first().push(c));
        lemma_path_esc_push(a.drop_first(), c);
        assert(path_esc_chars(a.push(c)) =~= path_esc_chars(a) + path_esc_chars(seq![c]));
    }
}

fn append_quoted_path(out: &mut String, s: &str)
    ensures
        final(out)@ == old(out)@ + quoted_path_chars(s@),
{
    out.append("\"");
    let n = s.unicode_len();
    let mut i: usize = 0;
    proof {
        assert(path_esc_chars(s@.subrange(0, 0)) =~= Seq::<char>::empty());
        assert(out@ =~= old(out)@ + "\""@ + path_esc_chars(s@.subrange(0, 0)));
    }
    while i < n
        invariant
            i <= n,
            n == s@.len(),
            out@ == old(out)@ + "\""@ + path_esc_chars(s@.subrange(0, i as int)),
        decreases n - i,
    {
        let c = s.get_char(i);
        if c == '"' {
            out.append("\\\"");
            proof {
                reveal_strlit("\\\"");
                assert("\\\""@ =~= seq!['\\', '"']);
            }
        } else if c == '\\' {
            out.append("\\\\");
            proof {
                reveal_strlit("\\\\");
                assert("\\\\"@ =~= seq!['\\', '\\']);
            }
        } else {
            let piece = s.substring_char(i, i + 1);
            proof {
                assert(piece@ =~= seq![s@[i as int]]);
            }
            out.append(piece);
        }
        proof {
            lemma_path_esc_push(s@.subrange(0, i as int), s@[i as int]);
            assert(s@.subrange(0, i as int).push(s@[i as int]) =~= s@.subrange(0, i + 1));
            assert(seq![s@[i as int]].drop_first() =~= Seq::<char>::empty());
            assert(path_esc_chars(Seq::<char>::empty()) =~= Seq::<char>::empty());
            assert(path_esc_chars(seq![s@[i as int]]) =~= if s@[i as int] == '"' {
                seq!['\\', '"']
            } else if s@[i as int] == '\\' {
                seq!['\\', '\\']
            } else {
                seq![s@[i as int]]
            });
            assert(out@ =~= old(out)@ + "\""@ + path_esc_chars(s@.subrange(0, i + 1)));
        }
        i = i + 1;
    }
    proof {
        assert(s@.subrange(0, n as int) =~= s@);
    }
    out.append("\"");
    proof {
        reveal_strlit("\"");
        assert("\""@ =~= seq!['"']);
        assert(final(out)@ =~= old(out)@ + quoted_path_chars(s@));
    }
}

/// Renders an event as its log line, with the file it belongs in; scan
/// events yield none.
pub fn log_line(evt: &SynchronizationEvent) -> (r: Option<(LogStream, String)>)
    ensures
        match r {
            Some((stream, line)) => log_line_chars(*evt) matches Some((s2, l2)) && s2 == stream
                && l2 == line@,
            None => log_line_chars(*evt) is None,
        },
{
    match evt {
        SynchronizationEvent::Stored { src, dst, generated, partial } => {
            let mut s = String::new();
            s.append("src: ");
            append_quoted_path(&mut s, src.as_str());
            s.append(" dst: ");
            append_quoted_path(&mut s, dst.as_str());
            s.append(" gen: ");
            s.append(if *generated {
                "true"
            } else {
                "false"
            });
            s.append(" par: ");
            s.append(if *partial {
                "true"
            } else {
                "false"
            });
            s.append("\n");
            proof {
                assert(s@ =~= log_line_chars(*evt).unwrap().1);
            }
            Some((LogStream::Completed, s))
        },
        SynchronizationEvent::Skipped { src, existing } => {
            let mut s = String::new();
            s.append("src: ");
            append_quoted_path(&mut s, src.as_str());
            s.append(" cause: file already exists ");
            append_quoted_path(&mut s, existing.as_str());
            s.append("\n");
            proof {
                assert(s@ =~= log_line_chars(*evt).unwrap().1);
            }
            Some((LogStream::Ignored, s))
        },
        SynchronizationEvent::Ignored { src, cause } => {
            let mut s = String::new();
            s.append("src: ");
            append_quoted_path(&mut s, src.as_str());
            s.append(" cause: ");
            s.append(cause.as_str());
            s.append("\n");
            proof {
                assert(s@ =~= log_line_chars(*evt).unwrap().1);
            }
            Some((LogStream::Ignored, s))
        },
        SynchronizationEvent::Errored { src, cause } => {
            let mut s = String::new();
            s.append("src: ");
            append_quoted_path(&mut s, src.as_str());
            s.append(" cause: '");
            s.append(cause.as_str());
            s.append("'\n");
            proof {
                assert(s@ =~= log_line_chars(*evt).unwrap().1);
            }
            Some((LogStream::Errored, s))
        },
        SynchronizationEvent::ScanProgress { .. } => None,
        SynchronizationEvent::ScanCompleted { .. } => None,
    }
}

} // verus!
