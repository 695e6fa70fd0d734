//! The command line of an engine that runs beside this process.
use vstd::prelude::*;

use crate::text;
use crate::text::{decimal, join_path};

verus! {

#[derive(Debug)]
pub struct LocalEngineConfig {
    pub model: String,
    pub converted: Option<String>,
    pub python: String,
    pub host: String,
    pub port: u16,
    pub tp: u32,
    pub cuda_home: Option<String>,
    pub working_dir: Option<String>,
}

impl Default for LocalEngineConfig {
    fn default() -> (res: Self)
        ensures
            res.model@ == "/home/bodesi/models/ds-v4-flash"@,
            text::opt_chars(res.converted) == Some("/tmp/ds-v4-mp8"@),
            res.python@ == "/home/bodesi/sglang-dflash-venv/bin/python"@,
            res.host@ == "127.0.0.1"@,
            res.port == 9001,
            res.tp == 8,
            text::opt_chars(res.cuda_home) == Some("/usr/local/cuda"@),
            text::opt_chars(res.working_dir) == Some("/home/bodesi/project/sglang-lite"@),
    {
        LocalEngineConfig {
            model: "/home/bodesi/models/ds-v4-flash".to_string(),
            converted: Some("/tmp/ds-v4-mp8".to_string()),
            python: "/home/bodesi/sglang-dflash-venv/bin/python".to_string(),
            host: "127.0.0.1".to_string(),
            port: 9001,
            tp: 8,
            cuda_home: Some("/usr/local/cuda".to_string()),
            working_dir: Some("/home/bodesi/project/sglang-lite".to_string()),
        }
    }
}

/// The arguments that start an engine.
pub open spec fn engine_args(c: LocalEngineConfig) -> Seq<Seq<char>> {
    seq![
        "--nproc-per-node="@ + text::dec(c.tp as nat),
        "-m"@,
        "sglang_lite.process"@,
        "--model"@,
        c.model@,
        "--device"@,
        "cuda"@,
        "--port"@,
        text::dec(c.port as nat),
        "--host"@,
        c.host@,
    ]
}

impl LocalEngineConfig {
    /// Where the engine listens.
    pub fn engine_url(&self) -> (res: String)
        ensures
            res@ == "http://"@ + self.host@ + ":"@ + text::dec(self.port as nat),
    {
        let mut s = "http://".to_string();
        s.append(self.host.as_str());
        s.append(":");
        s.append(decimal(self.port as u64).as_str());
        s
    }

    /// Where the engine's log goes.
    pub fn log_file(&self) -> (res: String)
        ensures
            res@ == "/tmp/traject-logs/engine-"@ + text::dec(self.port as nat) + ".log"@,
    {
        let mut s = "/tmp/traject-logs/engine-".to_string();
        s.append(decimal(self.port as u64).as_str());
        s.append(".log");
        s
    }

    /// The arguments that start the engine.
    pub fn args(&self) -> (res: Vec<String>)
        ensures
            text::all_chars(res@) == engine_args(*self),
    {
        let mut first = "--nproc-per-node=".to_string();
        first.append(decimal(self.tp as u64).as_str());
        let mut res: Vec<String> = Vec::new();
        res.push(first);
        res.push("-m".to_string());
        res.push("sglang_lite.process".to_string());
        res.push("--model".to_string());
        res.push(self.model.clone());
        res.push("--device".to_string());
        res.push("cuda".to_string());
        res.push("--port".to_string());
        res.push(decimal(self.port as u64));
        res.push("--host".to_string());
        res.push(self.host.clone());
        assert(text::all_chars(res@) =~= engine_args(*self));
        res
    }

    /// What the engine finds in its environment, given the search path of this
    /// process: names and values.
    pub fn environment(&self, path: &str) -> (res: Vec<(String, String)>)
        ensures
            res@.map_values(|kv: (String, String)| (kv.0@, kv.1@)) == engine_env(*self, path@),
    {
        let mut res: Vec<(String, String)> = Vec::new();
        res.push(("SGLANG_LITE_DSV4_HF".to_string(), self.model.clone()));
        if let Some(c) = &self.converted {
            res.push(("SGLANG_LITE_DSV4_CONVERTED".to_string(), c.clone()));
        }
        if let Some(c) = &self.cuda_home {
            let mut p = join_path(c.as_str(), "bin");
            p.append(":");
            p.append(path);
            let i = join_path(c.as_str(), "include");
            res.push(("PATH".to_string(), p));
            res.push(("CPATH".to_string(), i));
        }
        assert(res@.map_values(|kv: (String, String)| (kv.0@, kv.1@)) =~= engine_env(*self, path@));
        res
    }
}

/// What the engine finds in its environment.
pub open spec fn engine_env(c: LocalEngineConfig, path: Seq<char>) -> Seq<(Seq<char>, Seq<char>)> {
    seq![("SGLANG_LITE_DSV4_HF"@, c.model@)] + (match c.converted {
        Some(d) => seq![("SGLANG_LITE_DSV4_CONVERTED"@, d@)],
        None => Seq::empty(),
    }) + (match c.cuda_home {
        Some(d) => seq![
            ("PATH"@, text::path_joined(d@, "bin"@) + ":"@ + path),
            ("CPATH"@, text::path_joined(d@, "include"@)),
        ],
        None => Seq::empty(),
    })
}

/// The engine is started with the model, the port and the host that were
/// configured, each behind its flag, and on as many devices.
pub proof fn law_engine_started_as_configured(c: LocalEngineConfig)
    ensures
        engine_args(c)[0] == "--nproc-per-node="@ + text::dec(c.tp as nat),
        engine_args(c)[3] == "--model"@ && engine_args(c)[4] == c.model@,
        engine_args(c)[7] == "--port"@ && engine_args(c)[8] == text::dec(c.port as nat),
        engine_args(c)[9] == "--host"@ && engine_args(c)[10] == c.host@,
        engine_args(c).len() == 11,
{
}

/// The engine's environment names the model and the converted weights, and puts
/// the compiler's directory in front of the search path, where these are told.
pub proof fn law_engine_environment(c: LocalEngineConfig, path: Seq<char>)
    ensures
        engine_env(c, path)[0] == ("SGLANG_LITE_DSV4_HF"@, c.model@),
        c.converted matches Some(d) ==> engine_env(c, path).contains(
            ("SGLANG_LITE_DSV4_CONVERTED"@, d@),
        ),
        c.cuda_home matches Some(d) ==> engine_env(c, path).contains(
            ("PATH"@, text::path_joined(d@, "bin"@) + ":"@ + path),
        ) && engine_env(c, path).contains(("CPATH"@, text::path_joined(d@, "include"@))),
        engine_env(c, path).len() == 1 + (if c.converted is Some {
            1int
        } else {
            0
        }) + (if c.cuda_home is Some {
            2int
        } else {
            0
        }),
{
    let e = engine_env(c, path);
    if let Some(d) = c.converted {
        assert(e[1] == ("SGLANG_LITE_DSV4_CONVERTED"@, d@));
    }
    if let Some(d) = c.cuda_home {
        assert(e[e.len() - 2] == ("PATH"@, text::path_joined(d@, "bin"@) + ":"@ + path));
        assert(e[e.len() - 1] == ("CPATH"@, text::path_joined(d@, "include"@)));
    }
}

} // verus!
