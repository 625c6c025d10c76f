//! Configuration: the credential and transfer settings, their defaults,
//! and the pure part of the `config` command — applying requested changes
//! and rendering the settings for display. Reading and writing the
//! persisted file is the caller's concern.

use vstd::prelude::*;
use vstd::string::StrSliceExecFns;
use vstd::string::StringExecFns;

use crate::colors::fg_code_blue;
use crate::colors::fg_code_green;
use crate::colors::fg_code_red;
use crate::colors::fg_code_yellow;
use crate::colors::fg_styled_outcome;
use crate::colors::fmt_info;
use crate::colors::fmt_success;
use crate::colors::fmt_val;
use crate::colors::fmt_warn;
use crate::size::dec_str;
use crate::size::format_size;
use crate::size::format_size_spec;
use crate::size::u64_to_dec;
use crate::strutil::str_eq;

verus! {

/// The connection settings of the remote store.
pub struct S3Config {
    pub access_key: String,
    pub secret_key: String,
    pub region: String,
    pub bucket: String,
    pub endpoint: Option<String>,
}

/// The persisted configuration: connection settings and the default
/// chunk sizes for both transfer directions.
pub struct Config {
    pub s3: S3Config,
    pub upload_chunk_size: usize,
    pub download_chunk_size: usize,
}

/// The default chunk size for either direction: 2 MiB.
pub const DEFAULT_CHUNK_SIZE: usize = 2097152;

impl Default for Config {
    /// The defaults: empty credentials and bucket, region `us-east-1`,
    /// no custom endpoint, 2 MiB chunks both ways.
    fn default() -> (r: Config)
        ensures
            r.s3.access_key@ == Seq::<char>::empty(),
            r.s3.secret_key@ == Seq::<char>::empty(),
            r.s3.region@ == "us-east-1"@,
            r.s3.bucket@ == Seq::<char>::empty(),
            r.s3.endpoint is None,
            r.upload_chunk_size == DEFAULT_CHUNK_SIZE,
            r.download_chunk_size == DEFAULT_CHUNK_SIZE,
    {
        Config {
            s3: S3Config {
                access_key: String::new(),
                secret_key: String::new(),
                region: String::from_str("us-east-1"),
                bucket: String::new(),
                endpoint: Option::None,
            },
            upload_chunk_size: DEFAULT_CHUNK_SIZE,
            download_chunk_size: DEFAULT_CHUNK_SIZE,
        }
    }
}

/// A chunk size as shown to the user: the human-readable size, then the
/// exact byte count in parentheses.
pub open spec fn format_chunk_size_spec(n: int) -> Seq<char> {
    format_size_spec(n) + " ("@ + dec_str(n) + ")"@
}

pub fn format_chunk_size(size: usize) -> (r: String)
    ensures
        r@ == format_chunk_size_spec(size as int),
{
    let mut s = format_size(size as u64);
    s.append(" (");
    let d = u64_to_dec(size as u64);
    s.append(d.as_str());
    s.append(")");
    s
}

/// The value a change report shows: the value itself, or `<hidden>` for
/// a secret the caller chose not to reveal.
pub open spec fn shown_value(v: Seq<char>, show: bool) -> Seq<char> {
    if show {
        v
    } else {
        "<hidden>"@
    }
}

/// The shape of one change-report line: the field name, the old value in
/// yellow, an arrow, the new value in green.
pub open spec fn change_line_ok(
    field: Seq<char>,
    old_v: Seq<char>,
    new_v: Seq<char>,
    show: bool,
    line: Seq<char>,
) -> bool {
    exists|w1: Seq<char>, w2: Seq<char>|
        {
            &&& fg_styled_outcome(fg_code_yellow(), shown_value(old_v, show), w1)
            &&& fg_styled_outcome(fg_code_green(), shown_value(new_v, show), w2)
            &&& line == field + ": "@ + w1 + " -> "@ + w2
        }
}

/// Reports one settings change: `None` when the value is unchanged, else
/// the line describing the transition, the values hidden when asked.
pub fn handle_config_change(
    old_value: &str,
    new_value: &str,
    field_name: &str,
    show_hidden: bool,
) -> (r: Option<String>)
    ensures
        (r is Some) == (old_value@ != new_value@),
        match r {
            Option::Some(line) => change_line_ok(
                field_name@,
                old_value@,
                new_value@,
                show_hidden,
                line@,
            ),
            Option::None => old_value@ == new_value@,
        },
{
    if str_eq(old_value, new_value) {
        Option::None
    } else {
        let w1 = if show_hidden {
            fmt_warn(old_value)
        } else {
            fmt_warn("<hidden>")
        };
        let w2 = if show_hidden {
            fmt_success(new_value)
        } else {
            fmt_success("<hidden>")
        };
        let mut line = field_name.to_owned();
        line.append(": ");
        line.append(w1.as_str());
        line.append(" -> ");
        line.append(w2.as_str());
        proof {
            assert(fg_styled_outcome(
                fg_code_yellow(),
                shown_value(old_value@, show_hidden),
                w1@,
            ));
            assert(fg_styled_outcome(
                fg_code_green(),
                shown_value(new_value@, show_hidden),
                w2@,
            ));
            assert(line@ == field_name@ + ": "@ + w1@ + " -> "@ + w2@);
        }
        Option::Some(line)
    }
}

/// The requested settings changes of one `config` invocation: each field
/// is replaced when given, kept otherwise.
pub struct ConfigUpdate {
    pub access_key: Option<String>,
    pub secret_key: Option<String>,
    pub region: Option<String>,
    pub bucket: Option<String>,
    pub endpoint: Option<String>,
    pub upload_chunk_size: Option<usize>,
    pub download_chunk_size: Option<usize>,
}

/// A change-report line when the change happened, nothing otherwise.
pub open spec fn opt_line(present: bool, l: Seq<char>) -> Seq<Seq<char>> {
    if present {
        seq![l]
    } else {
        Seq::empty()
    }
}

/// The value an `Option` update leaves in a field.
pub open spec fn opt_or(upd: Option<Seq<char>>, old: Seq<char>) -> Seq<char> {
    match upd {
        Option::Some(v) => v,
        Option::None => old,
    }
}

/// Whether a requested text change differs from the old value.
pub open spec fn text_changed(upd: Option<Seq<char>>, old: Seq<char>) -> bool {
    match upd {
        Option::Some(v) => v != old,
        Option::None => false,
    }
}

/// Replaces one text setting when an update gives it, and reports the
/// change line when the value actually changed.
fn update_text_field(current: String, upd: Option<String>, field_name: &str, show: bool) -> (r: (
    String,
    Option<String>,
))
    ensures
        r.0@ == opt_or(upd.deep_view(), current@),
        (r.1 is Some) == text_changed(upd.deep_view(), current@),
        match r.1 {
            Option::Some(line) => upd.deep_view() matches Option::Some(v) && change_line_ok(
                field_name@,
                current@,
                v,
                show,
                line@,
            ),
            Option::None => true,
        },
{
    match upd {
        Option::Some(v) => {
            let line = handle_config_change(current.as_str(), v.as_str(), field_name, show);
            (v, line)
        },
        Option::None => (current, Option::None),
    }
}

/// Replaces one chunk-size setting when an update gives it, and reports
/// the change when the displayed rendering changed.
fn update_chunk_field(current: usize, upd: Option<usize>, field_name: &str) -> (r: (
    usize,
    Option<String>,
))
    ensures
        r.0 == (match upd {
            Option::Some(n) => n,
            Option::None => current,
        }),
        (r.1 is Some) == (upd matches Option::Some(n) && format_chunk_size_spec(n as int)
            != format_chunk_size_spec(current as int)),
        match r.1 {
            Option::Some(line) => upd matches Option::Some(n) && change_line_ok(
                field_name@,
                format_chunk_size_spec(current as int),
                format_chunk_size_spec(n as int),
                true,
                line@,
            ),
            Option::None => true,
        },
{
    match upd {
        Option::Some(n) => {
            let old_fmt = format_chunk_size(current);
            let new_fmt = format_chunk_size(n);
            let line = handle_config_change(old_fmt.as_str(), new_fmt.as_str(), field_name, true);
            (n, line)
        },
        Option::None => (current, Option::None),
    }
}

/// The view of an optional report line, the empty sequence standing in
/// when there is none.
pub open spec fn line_view(l: Option<String>) -> Seq<char> {
    match l {
        Option::Some(s) => s@,
        Option::None => Seq::empty(),
    }
}

/// The change report of one `config` invocation: one line per field that
/// actually changed, in the fixed field order, each line shaped as
/// `change_line_ok` states.
pub open spec fn changes_report_ok(
    config: Config,
    update: ConfigUpdate,
    show_all: bool,
    lines: Seq<Seq<char>>,
) -> bool {
    let ak = update.access_key.deep_view();
    let sk = update.secret_key.deep_view();
    let rg = update.region.deep_view();
    let bk = update.bucket.deep_view();
    let ep = update.endpoint.deep_view();
    let old_ep = match config.s3.endpoint {
        Option::Some(e) => e@,
        Option::None => Seq::<char>::empty(),
    };
    let c_ak = text_changed(ak, config.s3.access_key@);
    let c_sk = text_changed(sk, config.s3.secret_key@);
    let c_rg = text_changed(rg, config.s3.region@);
    let c_bk = text_changed(bk, config.s3.bucket@);
    let c_ep = text_changed(ep, old_ep);
    let c_up = update.upload_chunk_size matches Option::Some(n) && format_chunk_size_spec(n as int)
        != format_chunk_size_spec(config.upload_chunk_size as int);
    let c_dn = update.download_chunk_size matches Option::Some(n) && format_chunk_size_spec(
        n as int,
    ) != format_chunk_size_spec(config.download_chunk_size as int);
    let i_sk = if c_ak {
        1int
    } else {
        0int
    };
    let i_rg = i_sk + if c_sk {
        1int
    } else {
        0int
    };
    let i_bk = i_rg + if c_rg {
        1int
    } else {
        0int
    };
    let i_ep = i_bk + if c_bk {
        1int
    } else {
        0int
    };
    let i_up = i_ep + if c_ep {
        1int
    } else {
        0int
    };
    let i_dn = i_up + if c_up {
        1int
    } else {
        0int
    };
    let total = i_dn + if c_dn {
        1int
    } else {
        0int
    };
    &&& lines.len() == total
    &&& (c_ak ==> change_line_ok("Access Key ID"@, config.s3.access_key@, ak->0, true, lines[0]))
    &&& (c_sk ==> change_line_ok("Secret Key"@, config.s3.secret_key@, sk->0, show_all, lines[i_sk]))
    &&& (c_rg ==> change_line_ok("Region"@, config.s3.region@, rg->0, true, lines[i_rg]))
    &&& (c_bk ==> change_line_ok("Bucket"@, config.s3.bucket@, bk->0, true, lines[i_bk]))
    &&& (c_ep ==> change_line_ok("Endpoint"@, old_ep, ep->0, true, lines[i_ep]))
    &&& (c_up ==> change_line_ok(
        "Upload Chunk Size"@,
        format_chunk_size_spec(config.upload_chunk_size as int),
        format_chunk_size_spec(update.upload_chunk_size->0 as int),
        true,
        lines[i_up],
    ))
    &&& (c_dn ==> change_line_ok(
        "Download Chunk Size"@,
        format_chunk_size_spec(config.download_chunk_size as int),
        format_chunk_size_spec(update.download_chunk_size->0 as int),
        true,
        lines[i_dn],
    ))
}

/// Applies the requested changes to the settings and reports each field
/// that actually changed, in a fixed order: access key, secret key,
/// region, bucket, endpoint, upload chunk size, download chunk size. The
/// secret key's values are shown only when `show_all` is set; a chunk
/// size counts as changed when its display rendering changes.
#[verifier::rlimit(100)]
#[verifier::spinoff_prover]
pub fn apply_config_changes(config: Config, update: ConfigUpdate, show_all: bool) -> (r: (
    Config,
    Vec<String>,
))
    ensures
        ({
            let ak = update.access_key.deep_view();
            let sk = update.secret_key.deep_view();
            let rg = update.region.deep_view();
            let bk = update.bucket.deep_view();
            let ep = update.endpoint.deep_view();
            let old_ep = match config.s3.endpoint {
                Option::Some(e) => e@,
                Option::None => Seq::<char>::empty(),
            };
            let c_ak = text_changed(ak, config.s3.access_key@);
            let c_sk = text_changed(sk, config.s3.secret_key@);
            let c_rg = text_changed(rg, config.s3.region@);
            let c_bk = text_changed(bk, config.s3.bucket@);
            let c_ep = text_changed(ep, old_ep);
            let c_up = update.upload_chunk_size matches Option::Some(n) && format_chunk_size_spec(
                n as int,
            ) != format_chunk_size_spec(config.upload_chunk_size as int);
            let c_dn = update.download_chunk_size matches Option::Some(n)
                && format_chunk_size_spec(n as int) != format_chunk_size_spec(
                config.download_chunk_size as int,
            );
            &&& r.0.s3.access_key@ == opt_or(ak, config.s3.access_key@)
            &&& r.0.s3.secret_key@ == opt_or(sk, config.s3.secret_key@)
            &&& r.0.s3.region@ == opt_or(rg, config.s3.region@)
            &&& r.0.s3.bucket@ == opt_or(bk, config.s3.bucket@)
            &&& (update.endpoint is Some ==> r.0.s3.endpoint.deep_view()
                == update.endpoint.deep_view())
            &&& (update.endpoint is None ==> r.0.s3.endpoint.deep_view()
                == config.s3.endpoint.deep_view())
            &&& r.0.upload_chunk_size == (match update.upload_chunk_size {
                Option::Some(n) => n,
                Option::None => config.upload_chunk_size,
            })
            &&& r.0.download_chunk_size == (match update.download_chunk_size {
                Option::Some(n) => n,
                Option::None => config.download_chunk_size,
            })
            &&& changes_report_ok(config, update, show_all, r.1@.map_values(|l: String| l@))
        }),
{
    let ghost config0 = config;
    let mut cfg = config;
    let mut changes: Vec<String> = Vec::new();

    let (v, line_a) = update_text_field(cfg.s3.access_key, update.access_key, "Access Key ID", true);
    cfg.s3.access_key = v;
    let ghost la = line_view(line_a);
    let ghost c_ak = line_a is Some;
    if let Option::Some(l) = line_a {
        changes.push(l);
    }
    proof {
        assert(changes@.map_values(|l: String| l@) =~= opt_line(c_ak, la));
    }

    let (v, line_s) = update_text_field(cfg.s3.secret_key, update.secret_key, "Secret Key", show_all);
    cfg.s3.secret_key = v;
    let ghost ls = line_view(line_s);
    let ghost c_sk = line_s is Some;
    let ghost sofar = changes@.map_values(|l: String| l@);
    if let Option::Some(l) = line_s {
        changes.push(l);
    }
    proof {
        assert(changes@.map_values(|l: String| l@) =~= sofar + opt_line(c_sk, ls));
    }

    let (v, line_r) = update_text_field(cfg.s3.region, update.region, "Region", true);
    cfg.s3.region = v;
    let ghost lr = line_view(line_r);
    let ghost c_rg = line_r is Some;
    let ghost sofar = changes@.map_values(|l: String| l@);
    if let Option::Some(l) = line_r {
        changes.push(l);
    }
    proof {
        assert(changes@.map_values(|l: String| l@) =~= sofar + opt_line(c_rg, lr));
    }

    let (v, line_b) = update_text_field(cfg.s3.bucket, update.bucket, "Bucket", true);
    cfg.s3.bucket = v;
    let ghost lb = line_view(line_b);
    let ghost c_bk = line_b is Some;
    let ghost sofar = changes@.map_values(|l: String| l@);
    if let Option::Some(l) = line_b {
        changes.push(l);
    }
    proof {
        assert(changes@.map_values(|l: String| l@) =~= sofar + opt_line(c_bk, lb));
    }

    let old_end: String = match &cfg.s3.endpoint {
        Option::Some(e) => e.clone(),
        Option::None => String::new(),
    };
    let endpoint_given = update.endpoint.is_some();
    let (v, line_e) = update_text_field(old_end, update.endpoint, "Endpoint", true);
    if endpoint_given {
        cfg.s3.endpoint = Option::Some(v);
    }
    let ghost le = line_view(line_e);
    let ghost c_ep = line_e is Some;
    let ghost sofar = changes@.map_values(|l: String| l@);
    if let Option::Some(l) = line_e {
        changes.push(l);
    }
    proof {
        assert(changes@.map_values(|l: String| l@) =~= sofar + opt_line(c_ep, le));
    }

    let (n, line_u) = update_chunk_field(cfg.upload_chunk_size, update.upload_chunk_size, "Upload Chunk Size");
    cfg.upload_chunk_size = n;
    let ghost lu = line_view(line_u);
    let ghost c_up = line_u is Some;
    let ghost sofar = changes@.map_values(|l: String| l@);
    if let Option::Some(l) = line_u {
        changes.push(l);
    }
    proof {
        assert(changes@.map_values(|l: String| l@) =~= sofar + opt_line(c_up, lu));
    }

    let (n, line_d) = update_chunk_field(cfg.download_chunk_size, update.download_chunk_size, "Download Chunk Size");
    cfg.download_chunk_size = n;
    let ghost ld = line_view(line_d);
    let ghost c_dn = line_d is Some;
    let ghost sofar = changes@.map_values(|l: String| l@);
    if let Option::Some(l) = line_d {
        changes.push(l);
    }
    proof {
        assert(changes@.map_values(|l: String| l@) =~= sofar + opt_line(c_dn, ld));
        assert(changes@.map_values(|l: String| l@) =~= opt_line(c_ak, la) + opt_line(c_sk, ls)
            + opt_line(c_rg, lr) + opt_line(c_bk, lb) + opt_line(c_ep, le) + opt_line(c_up, lu)
            + opt_line(c_dn, ld));
        let ak = update.access_key.deep_view();
        let sk = update.secret_key.deep_view();
        let rg = update.region.deep_view();
        let bk = update.bucket.deep_view();
        let ep = update.endpoint.deep_view();
        let old_ep = match config0.s3.endpoint {
            Option::Some(e) => e@,
            Option::None => Seq::<char>::empty(),
        };
        assert(c_ak == text_changed(ak, config0.s3.access_key@));
        assert(c_sk == text_changed(sk, config0.s3.secret_key@));
        assert(c_rg == text_changed(rg, config0.s3.region@));
        assert(c_bk == text_changed(bk, config0.s3.bucket@));
        assert(c_ep == text_changed(ep, old_ep));
        assert(c_up == (update.upload_chunk_size matches Option::Some(n)
            && format_chunk_size_spec(n as int) != format_chunk_size_spec(
            config0.upload_chunk_size as int,
        )));
        assert(c_dn == (update.download_chunk_size matches Option::Some(n)
            && format_chunk_size_spec(n as int) != format_chunk_size_spec(
            config0.download_chunk_size as int,
        )));
        assert(changes_report_ok(config0, update, show_all, changes@.map_values(|l: String| l@)))
            by {
            let lines = changes@.map_values(|l: String| l@);
            let i_sk = if c_ak {
                1int
            } else {
                0int
            };
            let i_rg = i_sk + if c_sk {
                1int
            } else {
                0int
            };
            let i_bk = i_rg + if c_rg {
                1int
            } else {
                0int
            };
            let i_ep = i_bk + if c_bk {
                1int
            } else {
                0int
            };
            let i_up = i_ep + if c_ep {
                1int
            } else {
                0int
            };
            let i_dn = i_up + if c_up {
                1int
            } else {
                0int
            };
            assert(lines == opt_line(c_ak, la) + opt_line(c_sk, ls) + opt_line(c_rg, lr)
                + opt_line(c_bk, lb) + opt_line(c_ep, le) + opt_line(c_up, lu) + opt_line(
                c_dn,
                ld,
            ));
            if c_ak {
                assert(lines[0] == la);
            }
            if c_sk {
                assert(lines[i_sk] == ls);
            }
            if c_rg {
                assert(lines[i_rg] == lr);
            }
            if c_bk {
                assert(lines[i_bk] == lb);
            }
            if c_ep {
                assert(lines[i_ep] == le);
            }
            if c_up {
                assert(lines[i_up] == lu);
            }
            if c_dn {
                assert(lines[i_dn] == ld);
            }
        }
    }
    (cfg, changes)
}

/// One labelled display line: the label, then the payload styled with
/// the given colour.
pub open spec fn labeled_line_ok(
    label: Seq<char>,
    code: Seq<char>,
    payload: Seq<char>,
    line: Seq<char>,
) -> bool {
    exists|w: Seq<char>| fg_styled_outcome(code, payload, w) && line == label + w
}

/// A labelled value line: the placeholder `<not set>` in red when the
/// value is empty, else the value in green.
pub open spec fn value_line_ok(label: Seq<char>, value: Seq<char>, line: Seq<char>) -> bool {
    if value.len() == 0 {
        labeled_line_ok(label, fg_code_red(), "<not set>"@, line)
    } else {
        labeled_line_ok(label, fg_code_green(), value, line)
    }
}

fn labeled(label: &str, styled: String) -> (r: String)
    ensures
        r@ == label@ + styled@,
{
    let mut line = label.to_owned();
    line.append(styled.as_str());
    line
}

/// The settings rendered for display, one line per field: keys, region,
/// bucket, endpoint, and both chunk sizes. The secret key is shown only
/// when `show_all` is set.
pub fn config_display_lines(config: &Config, show_all: bool) -> (r: Vec<String>)
    ensures
        r@.len() == 7,
        value_line_ok("Access Key ID: "@, config.s3.access_key@, r@[0]@),
        ({
            let sk = config.s3.secret_key@;
            if sk.len() == 0 {
                value_line_ok("Secret Key: "@, sk, r@[1]@)
            } else if show_all {
                value_line_ok("Secret Key: "@, sk, r@[1]@)
            } else {
                labeled_line_ok("Secret Key: "@, fg_code_yellow(), "<hidden>"@, r@[1]@)
            }
        }),
        labeled_line_ok("Region: "@, fg_code_blue(), config.s3.region@, r@[2]@),
        value_line_ok("Bucket: "@, config.s3.bucket@, r@[3]@),
        ({
            let ep = match config.s3.endpoint {
                Option::Some(e) => e@,
                Option::None => Seq::<char>::empty(),
            };
            value_line_ok("Endpoint: "@, ep, r@[4]@)
        }),
        labeled_line_ok(
            "Upload Chunk Size: "@,
            fg_code_blue(),
            format_chunk_size_spec(config.upload_chunk_size as int),
            r@[5]@,
        ),
        labeled_line_ok(
            "Download Chunk Size: "@,
            fg_code_blue(),
            format_chunk_size_spec(config.download_chunk_size as int),
            r@[6]@,
        ),
{
    let mut r: Vec<String> = Vec::new();
    r.push(labeled("Access Key ID: ", fmt_val(config.s3.access_key.as_str(), "<not set>")));
    let secret = if config.s3.secret_key.as_str().unicode_len() == 0 {
        fmt_val(config.s3.secret_key.as_str(), "<not set>")
    } else if show_all {
        fmt_val(config.s3.secret_key.as_str(), "<not set>")
    } else {
        fmt_warn("<hidden>")
    };
    r.push(labeled("Secret Key: ", secret));
    r.push(labeled("Region: ", fmt_info(config.s3.region.as_str())));
    r.push(labeled("Bucket: ", fmt_val(config.s3.bucket.as_str(), "<not set>")));
    let ep_line = match &config.s3.endpoint {
        Option::Some(e) => labeled("Endpoint: ", fmt_val(e.as_str(), "<not set>")),
        Option::None => labeled("Endpoint: ", fmt_val("", "<not set>")),
    };
    r.push(ep_line);
    let up = format_chunk_size(config.upload_chunk_size);
    r.push(labeled("Upload Chunk Size: ", fmt_info(up.as_str())));
    let down = format_chunk_size(config.download_chunk_size);
    r.push(labeled("Download Chunk Size: ", fmt_info(down.as_str())));
    proof {
        reveal_strlit("");
        assert(""@ =~= Seq::<char>::empty());
    }
    r
}

} // verus!
