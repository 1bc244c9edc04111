use crate::error::Error;
use crate::io::{
    lemma_u32_at_its_bytes, lemma_u32_read_then_written, lemma_u32_written_then_read, read_u32_in,
    u32_at, u32_bytes, write_u32_in, Endian,
};
use crate::load_command::prefix::{prefix_error, read_prefix};
use vstd::prelude::*;

verus! {

/// The system that a file was built for.
#[derive(Debug, Clone, Copy, PartialEq, Eq, Structural)]
pub enum Platform {
    MacOS,
    IOS,
    TvOS,
    WatchOS,
    BridgeOS,
    MacCatalyst,
    IOSSimulator,
    TvOSSimulator,
    WatchOSSimulator,
    DriverKit,
}

/// A tool that took part in building a file.
#[derive(Debug, Clone, Copy, PartialEq, Eq, Structural)]
pub enum Tool {
    Clang,
    Swift,
    LD,
}

/// X.Y.Z packed as x16.y8.z8
#[derive(Debug, Clone, Copy, PartialEq, Eq, Structural)]
pub struct Version {
    pub major: u16,
    pub minor: u8,
    pub release: u8,
}

/// The load command that tells for which system, and with which tools, the
/// file was built. The versions of the tools follow it.
#[derive(Debug, Clone, Copy, PartialEq, Eq, Structural)]
pub struct BuildVersionCommand {
    pub cmd: u32,
    /// The size of the command and of the tool versions that follow it.
    pub cmdsize: u32,
    pub platform: Platform,
    /// The lowest version of the system that the file runs on.
    pub minos: Version,
    pub sdk: Version,
    /// How many tool versions follow.
    pub ntools: u32,
}

/// The version of one tool that took part in building the file.
#[derive(Debug, Clone, Copy, PartialEq, Eq, Structural)]
pub struct BuildToolVersion {
    pub tool: Tool,
    pub version: u32,
}

impl Platform {
    /// The number of the platform.
    pub open spec fn spec_to_u32(self) -> u32 {
        match self {
            Platform::MacOS => 1,
            Platform::IOS => 2,
            Platform::TvOS => 3,
            Platform::WatchOS => 4,
            Platform::BridgeOS => 5,
            Platform::MacCatalyst => 6,
            Platform::IOSSimulator => 7,
            Platform::TvOSSimulator => 8,
            Platform::WatchOSSimulator => 9,
            Platform::DriverKit => 10,
        }
    }

    /// The platform with number `n`, if there is one.
    pub open spec fn spec_from_u32(n: u32) -> Option<Platform> {
        if n == 1 {
            Some(Platform::MacOS)
        } else if n == 2 {
            Some(Platform::IOS)
        } else if n == 3 {
            Some(Platform::TvOS)
        } else if n == 4 {
            Some(Platform::WatchOS)
        } else if n == 5 {
            Some(Platform::BridgeOS)
        } else if n == 6 {
            Some(Platform::MacCatalyst)
        } else if n == 7 {
            Some(Platform::IOSSimulator)
        } else if n == 8 {
            Some(Platform::TvOSSimulator)
        } else if n == 9 {
            Some(Platform::WatchOSSimulator)
        } else if n == 10 {
            Some(Platform::DriverKit)
        } else {
            None
        }
    }

    pub fn from_u32(n: u32) -> (res: Result<Platform, Error>)
        ensures
            res is Ok <==> Platform::spec_from_u32(n) is Some,
            res matches Ok(platform) ==> Platform::spec_from_u32(n) == Some(platform),
            res matches Err(err) ==> err == Error::UnsupportedPlatform,
    {
        match n {
            1 => Ok(Platform::MacOS),
            2 => Ok(Platform::IOS),
            3 => Ok(Platform::TvOS),
            4 => Ok(Platform::WatchOS),
            5 => Ok(Platform::BridgeOS),
            6 => Ok(Platform::MacCatalyst),
            7 => Ok(Platform::IOSSimulator),
            8 => Ok(Platform::TvOSSimulator),
            9 => Ok(Platform::WatchOSSimulator),
            10 => Ok(Platform::DriverKit),
            _ => Err(Error::UnsupportedPlatform),
        }
    }

    #[verifier::when_used_as_spec(spec_to_u32)]
    pub fn to_u32(self) -> (n: u32)
        ensures
            n == self.spec_to_u32(),
    {
        match self {
            Platform::MacOS => 1,
            Platform::IOS => 2,
            Platform::TvOS => 3,
            Platform::WatchOS => 4,
            Platform::BridgeOS => 5,
            Platform::MacCatalyst => 6,
            Platform::IOSSimulator => 7,
            Platform::TvOSSimulator => 8,
            Platform::WatchOSSimulator => 9,
            Platform::DriverKit => 10,
        }
    }
}

impl Tool {
    /// The number of the tool.
    pub open spec fn spec_to_u32(self) -> u32 {
        match self {
            Tool::Clang => 1,
            Tool::Swift => 2,
            Tool::LD => 3,
        }
    }

    /// The tool with number `n`, if there is one.
    pub open spec fn spec_from_u32(n: u32) -> Option<Tool> {
        if n == 1 {
            Some(Tool::Clang)
        } else if n == 2 {
            Some(Tool::Swift)
        } else if n == 3 {
            Some(Tool::LD)
        } else {
            None
        }
    }

    pub fn from_u32(n: u32) -> (res: Result<Tool, Error>)
        ensures
            res is Ok <==> Tool::spec_from_u32(n) is Some,
            res matches Ok(tool) ==> Tool::spec_from_u32(n) == Some(tool),
            res matches Err(err) ==> err == Error::UnsupportedTool,
    {
        match n {
            1 => Ok(Tool::Clang),
            2 => Ok(Tool::Swift),
            3 => Ok(Tool::LD),
            _ => Err(Error::UnsupportedTool),
        }
    }

    #[verifier::when_used_as_spec(spec_to_u32)]
    pub fn to_u32(self) -> (n: u32)
        ensures
            n == self.spec_to_u32(),
    {
        match self {
            Tool::Clang => 1,
            Tool::Swift => 2,
            Tool::LD => 3,
        }
    }
}

impl Version {
    /// The word that holds the version: the major number in its upper half,
    /// then the minor number, then the release in its lowest byte.
    pub open spec fn spec_to_u32(self) -> u32 {
        (self.major as u32) << 16 | (self.minor as u32) << 8 | (self.release as u32)
    }

    /// The version that the word `n` holds.
    pub open spec fn spec_from_u32(n: u32) -> Version {
        Version {
            major: (n >> 16) as u16,
            minor: ((n >> 8) & 0xff) as u8,
            release: (n & 0xff) as u8,
        }
    }

    #[verifier::when_used_as_spec(spec_from_u32)]
    pub fn from_u32(n: u32) -> (version: Version)
        ensures
            version == Version::spec_from_u32(n),
    {
        Version {
            major: (n >> 16) as u16,
            minor: ((n >> 8) & 0xff) as u8,
            release: (n & 0xff) as u8,
        }
    }

    #[verifier::when_used_as_spec(spec_to_u32)]
    pub fn to_u32(self) -> (n: u32)
        ensures
            n == self.spec_to_u32(),
    {
        (self.major as u32) << 16 | (self.minor as u32) << 8 | (self.release as u32)
    }
}

impl BuildToolVersion {
    /// The number of bytes of a tool version.
    pub const SIZE: u32 = 8;

    /// The bytes of the tool version in byte order `e`.
    pub open spec fn spec_bytes(&self, e: Endian) -> Seq<u8> {
        u32_bytes(self.tool.spec_to_u32(), e) + u32_bytes(self.version, e)
    }

    /// Why `b` does not start with a tool version in byte order `e`; `None`
    /// if it does.
    pub open spec fn parse_error(b: Seq<u8>, e: Endian) -> Option<Error> {
        if b.len() < 4 {
            Some(Error::TruncatedInput)
        } else if Tool::spec_from_u32(u32_at(b, 0, e)) is None {
            Some(Error::UnsupportedTool)
        } else if b.len() < 8 {
            Some(Error::TruncatedInput)
        } else {
            None
        }
    }

    /// Whether this is the tool version that `b` starts with in byte order
    /// `e`.
    pub open spec fn parsed_from(&self, b: Seq<u8>, e: Endian) -> bool {
        &&& Some(self.tool) == Tool::spec_from_u32(u32_at(b, 0, e))
        &&& self.version == u32_at(b, 4, e)
    }

    /// The bytes of `tools` in byte order `e`, one tool version after the
    /// other.
    pub open spec fn all_bytes(tools: Seq<BuildToolVersion>, e: Endian) -> Seq<u8>
        decreases tools.len(),
    {
        if tools.len() == 0 {
            Seq::empty()
        } else {
            BuildToolVersion::all_bytes(tools.drop_last(), e) + tools.last().spec_bytes(e)
        }
    }

    /// Why `b` does not start with `n` tool versions in byte order `e`: the
    /// error of the first that has one; `None` if there is none.
    pub open spec fn all_error(b: Seq<u8>, n: nat, e: Endian) -> Option<Error>
        decreases n,
    {
        if n == 0 {
            None
        } else {
            match BuildToolVersion::parse_error(b, e) {
                Some(err) => Some(err),
                None => BuildToolVersion::all_error(b.skip(8), (n - 1) as nat, e),
            }
        }
    }

    /// Whether `tools` are the tool versions that `b` starts with in byte
    /// order `e`.
    pub open spec fn all_parsed_from(tools: Seq<BuildToolVersion>, b: Seq<u8>, e: Endian) -> bool {
        forall|i: int| 0 <= i < tools.len() ==> (#[trigger] tools[i]).parsed_from(b.skip(8 * i), e)
    }

    /// Reads the tool version that the input starts with.
    pub fn read_from_in(read: &mut &[u8], endian: Endian) -> (res: Result<BuildToolVersion, Error>)
        ensures
            res is Ok <==> BuildToolVersion::parse_error(old(read)@, endian) is None,
            res matches Ok(tool) ==> tool.parsed_from(old(read)@, endian)
                && final(read)@ == old(read)@.skip(8),
            res matches Err(err) ==> BuildToolVersion::parse_error(old(read)@, endian) == Some(err)
                && final(read)@ == old(read)@,
    {
        let mut cur: &[u8] = *read;
        let tool = Tool::from_u32(read_u32_in(&mut cur, endian)?)?;
        let version = read_u32_in(&mut cur, endian)?;
        *read = cur;
        Ok(BuildToolVersion { tool, version })
    }

    /// Reads the `count` tool versions that the input starts with.
    pub fn read_all_from_in(read: &mut &[u8], count: u32, endian: Endian) -> (res: Result<
        Vec<BuildToolVersion>,
        Error,
    >)
        ensures
            res is Ok <==> BuildToolVersion::all_error(old(read)@, count as nat, endian) is None,
            res matches Ok(tools) ==> tools@.len() == count && BuildToolVersion::all_parsed_from(
                tools@,
                old(read)@,
                endian,
            ) && 8 * count <= old(read)@.len() && final(read)@ == old(read)@.skip(8 * count),
            res matches Err(err) ==> BuildToolVersion::all_error(old(read)@, count as nat, endian)
                == Some(err) && final(read)@ == old(read)@,
    {
        let mut cur: &[u8] = *read;
        let mut tools: Vec<BuildToolVersion> = Vec::new();
        let mut i: u32 = 0;
        while i < count
            invariant
                i <= count,
                8 * i <= old(read)@.len(),
                cur@ == old(read)@.skip(8 * i),
                tools@.len() == i,
                BuildToolVersion::all_parsed_from(tools@, old(read)@, endian),
                BuildToolVersion::all_error(old(read)@, count as nat, endian)
                    == BuildToolVersion::all_error(cur@, (count - i) as nat, endian),
            decreases count - i,
        {
            let tool = BuildToolVersion::read_from_in(&mut cur, endian)?;
            tools.push(tool);
            i += 1;
        }
        *read = cur;
        Ok(tools)
    }

    /// Appends the bytes of the tool version, as this machine writes them.
    pub fn write_into(&self, out: &mut Vec<u8>)
        ensures
            final(out)@ == old(out)@ + self.spec_bytes(Endian::Little) || final(out)@ == old(out)@
                + self.spec_bytes(Endian::Big),
    {
        self.write_into_in(out, Endian::native())
    }

    /// Appends the bytes of the tool version in byte order `endian`.
    pub fn write_into_in(&self, out: &mut Vec<u8>, endian: Endian)
        ensures
            final(out)@ == old(out)@ + self.spec_bytes(endian),
    {
        write_u32_in(out, self.tool.to_u32(), endian);
        write_u32_in(out, self.version, endian);
    }

    /// Appends the bytes of `tools` in byte order `endian`, one tool version
    /// after the other.
    pub fn write_all_into_in(tools: &[BuildToolVersion], out: &mut Vec<u8>, endian: Endian)
        ensures
            final(out)@ == old(out)@ + BuildToolVersion::all_bytes(tools@, endian),
    {
        for i in 0..tools.len()
            invariant
                out@ == old(out)@ + BuildToolVersion::all_bytes(tools@.take(i as int), endian),
        {
            tools[i].write_into_in(out, endian);
            proof {
                assert(tools@.take(i + 1).drop_last() == tools@.take(i as int));
            }
        }
        proof {
            assert(tools@.take(tools@.len() as int) == tools@);
        }
    }
}

impl BuildVersionCommand {
    pub const TYPE: u32 = 0x32;

    /// The number of bytes of the command without the tool versions.
    pub const SIZE: u32 = 0x18;

    /// Whether the command declares the kind of a build version command.
    pub open spec fn spec_wf(&self) -> bool {
        self.cmd == BuildVersionCommand::TYPE
    }

    /// The bytes of the command in byte order `e`.
    pub open spec fn spec_bytes(&self, e: Endian) -> Seq<u8> {
        u32_bytes(self.cmd, e) + u32_bytes(self.cmdsize, e) + u32_bytes(
            self.platform.spec_to_u32(),
            e,
        ) + u32_bytes(self.minos.spec_to_u32(), e) + u32_bytes(self.sdk.spec_to_u32(), e)
            + u32_bytes(self.ntools, e)
    }

    /// Why `b` does not start with a build version command in byte order
    /// `e`; `None` if it does. The size that the command declares is not
    /// held against anything: it counts the tool versions too.
    pub open spec fn parse_error(b: Seq<u8>, e: Endian) -> Option<Error> {
        if prefix_error(b, e, BuildVersionCommand::TYPE, None) is Some {
            prefix_error(b, e, BuildVersionCommand::TYPE, None)
        } else if b.len() < 12 {
            Some(Error::TruncatedInput)
        } else if Platform::spec_from_u32(u32_at(b, 8, e)) is None {
            Some(Error::UnsupportedPlatform)
        } else if b.len() < 24 {
            Some(Error::TruncatedInput)
        } else {
            None
        }
    }

    /// Whether this is the build version command that `b` starts with in
    /// byte order `e`.
    pub open spec fn parsed_from(&self, b: Seq<u8>, e: Endian) -> bool {
        &&& self.cmd == u32_at(b, 0, e)
        &&& self.cmdsize == u32_at(b, 4, e)
        &&& Some(self.platform) == Platform::spec_from_u32(u32_at(b, 8, e))
        &&& self.minos == Version::spec_from_u32(u32_at(b, 12, e))
        &&& self.sdk == Version::spec_from_u32(u32_at(b, 16, e))
        &&& self.ntools == u32_at(b, 20, e)
    }

    /// Reads the build version command that the input starts with, without
    /// the tool versions that follow it.
    pub fn read_from_in(read: &mut &[u8], endian: Endian) -> (res: Result<
        BuildVersionCommand,
        Error,
    >)
        ensures
            res is Ok <==> BuildVersionCommand::parse_error(old(read)@, endian) is None,
            res matches Ok(command) ==> command.parsed_from(old(read)@, endian) && final(read)@
                == old(read)@.skip(24),
            res matches Err(err) ==> BuildVersionCommand::parse_error(old(read)@, endian) == Some(
                err,
            ) && final(read)@ == old(read)@,
    {
        let mut cur: &[u8] = *read;
        let (cmd, cmdsize) = read_prefix(&mut cur, endian, Self::TYPE, None)?;
        let platform = Platform::from_u32(read_u32_in(&mut cur, endian)?)?;
        let minos = Version::from_u32(read_u32_in(&mut cur, endian)?);
        let sdk = Version::from_u32(read_u32_in(&mut cur, endian)?);
        let ntools = read_u32_in(&mut cur, endian)?;
        *read = cur;
        Ok(BuildVersionCommand { cmd, cmdsize, platform, minos, sdk, ntools })
    }

    /// Appends the bytes of the command, as this machine writes them.
    pub fn write_into(&self, out: &mut Vec<u8>)
        ensures
            final(out)@ == old(out)@ + self.spec_bytes(Endian::Little) || final(out)@ == old(out)@
                + self.spec_bytes(Endian::Big),
    {
        self.write_into_in(out, Endian::native())
    }

    /// Appends the bytes of the command in byte order `endian`.
    pub fn write_into_in(&self, out: &mut Vec<u8>, endian: Endian)
        ensures
            final(out)@ == old(out)@ + self.spec_bytes(endian),
    {
        write_u32_in(out, self.cmd, endian);
        write_u32_in(out, self.cmdsize, endian);
        write_u32_in(out, self.platform.to_u32(), endian);
        write_u32_in(out, self.minos.to_u32(), endian);
        write_u32_in(out, self.sdk.to_u32(), endian);
        write_u32_in(out, self.ntools, endian);
    }
}

/// A platform that was found for a number has that number.
pub proof fn lemma_platform_from_to(n: u32)
    ensures
        Platform::spec_from_u32(n) matches Some(platform) ==> platform.spec_to_u32() == n,
{
}

/// The number of a platform names that platform and no other.
pub proof fn lemma_platform_to_from(platform: Platform)
    ensures
        Platform::spec_from_u32(platform.spec_to_u32()) == Some(platform),
{
}

/// A tool that was found for a number has that number.
pub proof fn lemma_tool_from_to(n: u32)
    ensures
        Tool::spec_from_u32(n) matches Some(tool) ==> tool.spec_to_u32() == n,
{
}

/// The number of a tool names that tool and no other.
pub proof fn lemma_tool_to_from(tool: Tool)
    ensures
        Tool::spec_from_u32(tool.spec_to_u32()) == Some(tool),
{
}

/// Packing the version that a word holds gives the word.
pub proof fn lemma_version_from_to(n: u32)
    ensures
        Version::spec_from_u32(n).spec_to_u32() == n,
{
    assert((((n >> 16) as u16) as u32) << 16 | ((((n >> 8) & 0xff) as u8) as u32) << 8 | (((n
        & 0xff) as u8) as u32) == n) by (bit_vector);
}

/// Unpacking the word of a version gives the version.
pub proof fn lemma_version_to_from(version: Version)
    ensures
        Version::spec_from_u32(version.spec_to_u32()) == version,
{
    let major = version.major;
    let minor = version.minor;
    let release = version.release;
    let n = (major as u32) << 16 | (minor as u32) << 8 | (release as u32);
    assert((n >> 16) as u16 == major && ((n >> 8) & 0xff) as u8 == minor && (n & 0xff) as u8
        == release) by (bit_vector)
        requires
            n == (major as u32) << 16 | (minor as u32) << 8 | (release as u32),
    ;
}

/// A build version command is written back, in the byte order it was read
/// in, as the bytes it was read from.
pub proof fn lemma_build_version_decode_then_encode(
    command: BuildVersionCommand,
    b: Seq<u8>,
    e: Endian,
)
    requires
        BuildVersionCommand::parse_error(b, e) is None,
        command.parsed_from(b, e),
    ensures
        b.len() >= 24,
        command.spec_bytes(e) == b.take(24),
{
    lemma_platform_from_to(u32_at(b, 8, e));
    lemma_version_from_to(u32_at(b, 12, e));
    lemma_version_from_to(u32_at(b, 16, e));
    lemma_u32_read_then_written(b, 0, e);
    lemma_u32_read_then_written(b, 4, e);
    lemma_u32_read_then_written(b, 8, e);
    lemma_u32_read_then_written(b, 12, e);
    lemma_u32_read_then_written(b, 16, e);
    lemma_u32_read_then_written(b, 20, e);
}

/// A tool version is written back, in the byte order it was read in, as the
/// bytes it was read from.
pub proof fn lemma_build_tool_decode_then_encode(tool: BuildToolVersion, b: Seq<u8>, e: Endian)
    requires
        BuildToolVersion::parse_error(b, e) is None,
        tool.parsed_from(b, e),
    ensures
        b.len() >= 8,
        tool.spec_bytes(e) == b.take(8),
{
    lemma_tool_from_to(u32_at(b, 0, e));
    lemma_u32_read_then_written(b, 0, e);
    lemma_u32_read_then_written(b, 4, e);
}

/// No one of `n` tool versions that `b` starts with has an error only if
/// `b` holds all their bytes and each of them, where it lies, has none.
pub proof fn lemma_build_tools_error_none(b: Seq<u8>, n: nat, e: Endian)
    requires
        BuildToolVersion::all_error(b, n, e) is None,
    ensures
        8 * n <= b.len(),
        forall|i: int|
            0 <= i < n ==> BuildToolVersion::parse_error(#[trigger] b.skip(8 * i), e) is None,
    decreases n,
{
    if n > 0 {
        lemma_build_tools_error_none(b.skip(8), (n - 1) as nat, e);
        assert forall|i: int| 0 <= i < n implies BuildToolVersion::parse_error(
            #[trigger] b.skip(8 * i),
            e,
        ) is None by {
            if i == 0 {
            } else {
                assert(b.skip(8).skip(8 * (i - 1)) =~= b.skip(8 * i));
            }
        }
    }
}

/// Where none of `n` tool versions has an error, none of the first `m` of
/// them has one.
pub proof fn lemma_build_tools_error_front(b: Seq<u8>, n: nat, m: nat, e: Endian)
    requires
        m <= n,
        BuildToolVersion::all_error(b, n, e) is None,
    ensures
        BuildToolVersion::all_error(b, m, e) is None,
    decreases m,
{
    if m > 0 {
        lemma_build_tools_error_front(b.skip(8), (n - 1) as nat, (m - 1) as nat, e);
    }
}

/// Tool versions are written back, in the byte order they were read in, as
/// the bytes they were read from.
pub proof fn lemma_build_tools_decode_then_encode(
    tools: Seq<BuildToolVersion>,
    b: Seq<u8>,
    e: Endian,
)
    requires
        BuildToolVersion::all_error(b, tools.len(), e) is None,
        BuildToolVersion::all_parsed_from(tools, b, e),
    ensures
        8 * tools.len() <= b.len(),
        BuildToolVersion::all_bytes(tools, e) == b.take(8 * tools.len() as int),
    decreases tools.len(),
{
    lemma_build_tools_error_none(b, tools.len(), e);
    if tools.len() == 0 {
    } else {
        let n = tools.len() - 1;
        let front = tools.drop_last();
        assert(BuildToolVersion::all_parsed_from(front, b, e)) by {
            assert forall|i: int| 0 <= i < front.len() implies (#[trigger] front[i]).parsed_from(
                b.skip(8 * i),
                e,
            ) by {
            }
        }
        lemma_build_tools_error_front(b, tools.len(), n as nat, e);
        lemma_build_tools_decode_then_encode(front, b, e);
        lemma_build_tool_decode_then_encode(tools.last(), b.skip(8 * n), e);
        crate::io::lemma_take_then_more(b, 8 * n, 8);
    }
}

/// Bytes that start with the bytes of a tool version are read, in the byte
/// order they were written in, as that tool version.
pub proof fn lemma_build_tool_encode_then_decode(tool: BuildToolVersion, b: Seq<u8>, e: Endian)
    requires
        b.len() >= 8,
        b.take(8) == tool.spec_bytes(e),
    ensures
        BuildToolVersion::parse_error(b, e) is None,
        tool.parsed_from(b, e),
{
    lemma_tool_to_from(tool.tool);
    lemma_u32_written_then_read(tool.tool.spec_to_u32(), e);
    lemma_u32_written_then_read(tool.version, e);
    assert(b.subrange(0, 4) =~= u32_bytes(tool.tool.spec_to_u32(), e));
    lemma_u32_at_its_bytes(b, 0, tool.tool.spec_to_u32(), e);
    assert(b.subrange(4, 8) =~= u32_bytes(tool.version, e)) by {
        assert(b.take(8).subrange(4, 8) =~= b.subrange(4, 8));
    }
    lemma_u32_at_its_bytes(b, 4, tool.version, e);
}

/// The bytes of tool versions are eight for each of them, and each of them
/// has its own bytes in its place.
pub proof fn lemma_build_tools_bytes(tools: Seq<BuildToolVersion>, e: Endian)
    ensures
        BuildToolVersion::all_bytes(tools, e).len() == 8 * tools.len(),
        forall|i: int|
            0 <= i < tools.len() ==> BuildToolVersion::all_bytes(tools, e).subrange(
                8 * i,
                8 * i + 8,
            ) == (#[trigger] tools[i]).spec_bytes(e),
    decreases tools.len(),
{
    if tools.len() > 0 {
        let n = tools.len() - 1;
        let front = tools.drop_last();
        let all = BuildToolVersion::all_bytes(tools, e);
        lemma_build_tools_bytes(front, e);
        lemma_u32_written_then_read(tools.last().tool.spec_to_u32(), e);
        lemma_u32_written_then_read(tools.last().version, e);
        assert forall|i: int| 0 <= i < tools.len() implies all.subrange(8 * i, 8 * i + 8) == (
        #[trigger] tools[i]).spec_bytes(e) by {
            if i < n {
                assert(front[i] == tools[i]);
            } else {
            }
        }
    }
}

/// Where `b` holds the bytes of `n` tool versions and each of them, where
/// it lies, has no error, none of the `n` has one.
pub proof fn lemma_build_tools_error_each(b: Seq<u8>, n: nat, e: Endian)
    requires
        8 * n <= b.len(),
        forall|i: int|
            0 <= i < n ==> BuildToolVersion::parse_error(#[trigger] b.skip(8 * i), e) is None,
    ensures
        BuildToolVersion::all_error(b, n, e) is None,
    decreases n,
{
    if n > 0 {
        assert(b.skip(8 * 0int) =~= b);
        assert forall|i: int| 0 <= i < n - 1 implies BuildToolVersion::parse_error(
            #[trigger] b.skip(8).skip(8 * i),
            e,
        ) is None by {
            assert(b.skip(8).skip(8 * i) =~= b.skip(8 * (i + 1)));
        }
        lemma_build_tools_error_each(b.skip(8), (n - 1) as nat, e);
    }
}

/// Bytes that start with the bytes of tool versions are read, in the byte
/// order they were written in, as those tool versions.
pub proof fn lemma_build_tools_encode_then_decode(
    tools: Seq<BuildToolVersion>,
    b: Seq<u8>,
    e: Endian,
)
    requires
        b.len() >= 8 * tools.len(),
        b.take(8 * tools.len() as int) == BuildToolVersion::all_bytes(tools, e),
    ensures
        BuildToolVersion::all_error(b, tools.len(), e) is None,
        BuildToolVersion::all_parsed_from(tools, b, e),
{
    lemma_build_tools_bytes(tools, e);
    assert forall|i: int| 0 <= i < tools.len() implies BuildToolVersion::parse_error(
        #[trigger] b.skip(8 * i),
        e,
    ) is None && tools[i].parsed_from(b.skip(8 * i), e) by {
        assert(b.skip(8 * i).take(8) =~= b.take(8 * tools.len() as int).subrange(
            8 * i,
            8 * i + 8,
        ));
        lemma_build_tool_encode_then_decode(tools[i], b.skip(8 * i), e);
    }
    lemma_build_tools_error_each(b, tools.len(), e);
}

/// Bytes that start with the bytes of a build version command which
/// declares its own kind are read, in the byte order they were written in,
/// as that command.
pub proof fn lemma_build_version_encode_then_decode(
    command: BuildVersionCommand,
    b: Seq<u8>,
    e: Endian,
)
    requires
        command.spec_wf(),
        b.len() >= 24,
        b.take(24) == command.spec_bytes(e),
    ensures
        BuildVersionCommand::parse_error(b, e) is None,
        command.parsed_from(b, e),
{
    lemma_platform_to_from(command.platform);
    lemma_version_to_from(command.minos);
    lemma_version_to_from(command.sdk);
    lemma_u32_written_then_read(command.cmd, e);
    lemma_u32_written_then_read(command.cmdsize, e);
    lemma_u32_written_then_read(command.platform.spec_to_u32(), e);
    lemma_u32_written_then_read(command.minos.spec_to_u32(), e);
    lemma_u32_written_then_read(command.sdk.spec_to_u32(), e);
    lemma_u32_written_then_read(command.ntools, e);
    assert(b.subrange(0, 4) =~= u32_bytes(command.cmd, e));
    lemma_u32_at_its_bytes(b, 0, command.cmd, e);
    assert(b.subrange(4, 8) =~= u32_bytes(command.cmdsize, e)) by {
        assert(b.take(24).subrange(4, 8) =~= b.subrange(4, 8));
    }
    lemma_u32_at_its_bytes(b, 4, command.cmdsize, e);
    assert(b.subrange(8, 12) =~= u32_bytes(command.platform.spec_to_u32(), e)) by {
        assert(b.take(24).subrange(8, 12) =~= b.subrange(8, 12));
    }
    lemma_u32_at_its_bytes(b, 8, command.platform.spec_to_u32(), e);
    assert(b.subrange(12, 16) =~= u32_bytes(command.minos.spec_to_u32(), e)) by {
        assert(b.take(24).subrange(12, 16) =~= b.subrange(12, 16));
    }
    lemma_u32_at_its_bytes(b, 12, command.minos.spec_to_u32(), e);
    assert(b.subrange(16, 20) =~= u32_bytes(command.sdk.spec_to_u32(), e)) by {
        assert(b.take(24).subrange(16, 20) =~= b.subrange(16, 20));
    }
    lemma_u32_at_its_bytes(b, 16, command.sdk.spec_to_u32(), e);
    assert(b.subrange(20, 24) =~= u32_bytes(command.ntools, e)) by {
        assert(b.take(24).subrange(20, 24) =~= b.subrange(20, 24));
    }
    lemma_u32_at_its_bytes(b, 20, command.ntools, e);
}

/// The bytes of a build version command are twenty-four.
pub proof fn lemma_build_version_bytes_len(command: BuildVersionCommand, e: Endian)
    ensures
        command.spec_bytes(e).len() == 24,
{
    lemma_u32_written_then_read(command.cmd, e);
    lemma_u32_written_then_read(command.cmdsize, e);
    lemma_u32_written_then_read(command.platform.spec_to_u32(), e);
    lemma_u32_written_then_read(command.minos.spec_to_u32(), e);
    lemma_u32_written_then_read(command.sdk.spec_to_u32(), e);
    lemma_u32_written_then_read(command.ntools, e);
}

/// A build version command and its tool versions are written back, in the
/// byte order they were read in, as the bytes they were read from.
pub proof fn lemma_build_version_and_tools_decode_then_encode(
    command: BuildVersionCommand,
    tools: Seq<BuildToolVersion>,
    b: Seq<u8>,
    e: Endian,
)
    requires
        BuildVersionCommand::parse_error(b, e) is None,
        command.parsed_from(b, e),
        BuildToolVersion::all_error(b.skip(24), tools.len(), e) is None,
        BuildToolVersion::all_parsed_from(tools, b.skip(24), e),
    ensures
        24 + 8 * tools.len() <= b.len(),
        command.spec_bytes(e) + BuildToolVersion::all_bytes(tools, e) == b.take(
            24 + 8 * tools.len() as int,
        ),
{
    lemma_build_version_decode_then_encode(command, b, e);
    lemma_build_tools_decode_then_encode(tools, b.skip(24), e);
}

/// Bytes that start with the bytes of a build version command which
/// declares its own kind, and of its tool versions, are read, in the byte
/// order they were written in, as that command and those tool versions.
pub proof fn lemma_build_version_and_tools_encode_then_decode(
    command: BuildVersionCommand,
    tools: Seq<BuildToolVersion>,
    b: Seq<u8>,
    e: Endian,
)
    requires
        command.spec_wf(),
        b.len() >= 24 + 8 * tools.len(),
        b.take(24 + 8 * tools.len() as int) == command.spec_bytes(e) + BuildToolVersion::all_bytes(
            tools,
            e,
        ),
    ensures
        BuildVersionCommand::parse_error(b, e) is None,
        command.parsed_from(b, e),
        BuildToolVersion::all_error(b.skip(24), tools.len(), e) is None,
        BuildToolVersion::all_parsed_from(tools, b.skip(24), e),
{
    let len = 24 + 8 * tools.len() as int;
    lemma_build_version_bytes_len(command, e);
    lemma_build_tools_bytes(tools, e);
    assert(b.take(24) =~= command.spec_bytes(e));
    assert(b.skip(24).take(8 * tools.len() as int) =~= BuildToolVersion::all_bytes(tools, e)) by {
        assert(b.take(len).subrange(24, len) =~= b.skip(24).take(8 * tools.len() as int));
    }
    lemma_build_version_encode_then_decode(command, b, e);
    lemma_build_tools_encode_then_decode(tools, b.skip(24), e);
}

} // verus!
