//! Generating the embedding store: the batch scheduler as a run that tells
//! its driver which request to send next and turns each reply into records.
use vstd::prelude::*;

use crate::batch::{
    batch_count_spec, batch_end_spec, batch_size_spec, batch_start_spec, plan_batches,
};
use crate::client::Client;
use crate::embedding::{EmbeddingInput, EmbeddingRequest, EmbeddingResponse, EMBEDDING_MODEL};
use crate::error::SemanticSearchError;
use crate::store::{
    lemma_store_text_views, record_view, store_text, store_text_of, EmbeddingRecord, texts_view,
};
use crate::table::{csv_records, documents_outcome, parse_documents, Document};

verus! {

/// Rebuilds the embedding store from the input table, in batches.
#[derive(Clone, Debug)]
pub struct GenerateEmbeddingsCommand {
    client: Client,
    num_batches: u32,
}

/// One generation run: the documents, their batches, and how many batches
/// have been answered.
#[derive(Clone, Debug)]
pub struct GenerationRun {
    documents: Vec<Document>,
    batches: Vec<(usize, usize)>,
    num_batches: u32,
    next: usize,
}

impl GenerateEmbeddingsCommand {
    pub closed spec fn client_spec(&self) -> Client {
        self.client
    }

    pub closed spec fn num_batches_spec(&self) -> u32 {
        self.num_batches
    }

    /// A command for the given key that splits its work into `num_batches` batches.
    pub fn new(api_key: String, num_batches: u32) -> (r: Self)
        ensures
            r.client_spec().key_spec() == api_key@,
            r.client_spec().base_spec() == crate::client::API_BASE@,
            r.client_spec().org_spec().len() == 0,
            r.num_batches_spec() == num_batches,
    {
        GenerateEmbeddingsCommand { client: Client::new(api_key), num_batches }
    }

    /// A command with a client of the caller's making.
    pub fn with_client(client: Client, num_batches: u32) -> (r: Self)
        ensures
            r.client_spec() == client,
            r.num_batches_spec() == num_batches,
    {
        GenerateEmbeddingsCommand { client, num_batches }
    }

    pub fn client(&self) -> (r: &Client)
        ensures
            *r == self.client_spec(),
    {
        &self.client
    }

    pub fn num_batches(&self) -> (r: u32)
        ensures
            r == self.num_batches_spec(),
    {
        self.num_batches
    }

    /// Starts a run over the input table. A batch count of zero is refused;
    /// a table that does not read, or a row without a body, fails the run.
    pub fn start_run(&self, input: &str) -> (r: Result<GenerationRun, SemanticSearchError>)
        ensures
            self.num_batches_spec() == 0 ==> r == Err::<GenerationRun, SemanticSearchError>(
                SemanticSearchError::InvalidBatchCount,
            ),
            self.num_batches_spec() >= 1 ==> match r {
                Ok(run) => {
                    &&& run.wf()
                    &&& run.num_batches_spec() == self.num_batches_spec()
                    &&& run.next_spec() == 0
                    &&& documents_outcome(
                        csv_records(input@, true),
                        Ok::<Vec<Document>, SemanticSearchError>(run.documents_vec()),
                    )
                },
                Err(e) => documents_outcome(
                    csv_records(input@, true),
                    Err::<Vec<Document>, SemanticSearchError>(e),
                ),
            },
    {
        if self.num_batches == 0 {
            return Err(SemanticSearchError::InvalidBatchCount);
        }
        let documents = parse_documents(input)?;
        let batches = plan_batches(documents.len(), self.num_batches);
        Ok(GenerationRun { documents, batches, num_batches: self.num_batches, next: 0 })
    }
}

impl GenerationRun {
    pub closed spec fn documents_spec(&self) -> Seq<Document> {
        self.documents@
    }

    pub closed spec fn documents_vec(&self) -> Vec<Document> {
        self.documents
    }

    pub closed spec fn num_batches_spec(&self) -> u32 {
        self.num_batches
    }

    /// How many batches have been answered.
    pub closed spec fn next_spec(&self) -> nat {
        self.next as nat
    }

    /// The batches follow the plan for these documents and batch count.
    pub closed spec fn wf(&self) -> bool {
        let n = self.documents@.len();
        let b = self.num_batches as nat;
        &&& b >= 1
        &&& self.batches@.len() == batch_count_spec(n, b)
        &&& self.next <= self.batches@.len()
        &&& forall|t: int|
            0 <= t < self.batches@.len() ==> (#[trigger] self.batches@[t]).0 == batch_start_spec(
                n,
                b,
                t as nat,
            ) && self.batches@[t].1 == batch_end_spec(n, b, t as nat)
    }

    /// Number of batches in the run.
    pub open spec fn batch_count(&self) -> nat {
        batch_count_spec(self.documents_spec().len(), self.num_batches_spec() as nat)
    }

    /// Every batch has been answered.
    pub open spec fn finished_spec(&self) -> bool {
        self.next_spec() >= self.batch_count()
    }

    /// First document of the batch waiting for an answer.
    pub open spec fn batch_start(&self) -> nat {
        batch_start_spec(self.documents_spec().len(), self.num_batches_spec() as nat, self.next_spec())
    }

    /// One past the last document of the batch waiting for an answer.
    pub open spec fn batch_end(&self) -> nat {
        batch_end_spec(self.documents_spec().len(), self.num_batches_spec() as nat, self.next_spec())
    }

    /// How many documents have been turned into records.
    pub open spec fn processed_spec(&self) -> nat {
        if self.finished_spec() {
            self.documents_spec().len()
        } else {
            self.batch_start()
        }
    }

    pub fn is_finished(&self) -> (r: bool)
        requires
            self.wf(),
        ensures
            r == self.finished_spec(),
    {
        self.next >= self.batches.len()
    }

    /// How many documents have been turned into records so far.
    pub fn processed(&self) -> (r: usize)
        requires
            self.wf(),
        ensures
            r == self.processed_spec(),
    {
        if self.next >= self.batches.len() {
            self.documents.len()
        } else {
            self.batches[self.next].0
        }
    }

    pub fn documents(&self) -> (r: &Vec<Document>)
        ensures
            r@ == self.documents_spec(),
    {
        &self.documents
    }

    /// `req` asks for the embeddings of the batch waiting for an answer: the
    /// bodies of its documents, in order, for the fixed model.
    pub open spec fn requests_batch(&self, req: EmbeddingRequest) -> bool {
        &&& req.model@ == EMBEDDING_MODEL@
        &&& req.user is None
        &&& req.input is StringArray
        &&& req.input.texts().len() == self.batch_end() - self.batch_start()
        &&& forall|i: int|
            0 <= i < req.input.texts().len() ==> #[trigger] req.input.texts()[i]
                == self.documents_spec()[self.batch_start() + i].body@
    }

    /// The records of the waiting batch under `response`: position `i` pairs
    /// the document at `start + i` of the whole input with embedding `i`.
    pub open spec fn batch_views(&self, response: EmbeddingResponse) -> Seq<
        (Seq<char>, Seq<char>, Seq<Seq<char>>),
    > {
        Seq::new(
            (self.batch_end() - self.batch_start()) as nat,
            |i: int|
                (
                    self.documents_spec()[self.batch_start() + i].name@,
                    self.documents_spec()[self.batch_start() + i].header@,
                    texts_view(response.data@[i].embedding@),
                ),
        )
    }

    /// The reply carries an embedding for every document of the waiting batch.
    pub open spec fn reply_complete(&self, response: EmbeddingResponse) -> bool {
        response.data@.len() >= self.batch_end() - self.batch_start()
    }

    /// The request for the batch waiting for an answer: the bodies of its
    /// documents, in order. Nothing once every batch is answered.
    pub fn next_request(&self, client: &Client) -> (r: Option<EmbeddingRequest>)
        requires
            self.wf(),
        ensures
            r is None <==> self.finished_spec(),
            r is Some ==> self.requests_batch(r->Some_0),
    {
        if self.next >= self.batches.len() {
            return None;
        }
        let (start, end) = self.batches[self.next];
        proof {
            lemma_batch_within(self);
        }
        let mut texts: Vec<String> = Vec::new();
        let mut i: usize = start;
        while i < end
            invariant
                start <= i <= end,
                end <= self.documents@.len(),
                texts@.len() == i - start,
                forall|j: int|
                    0 <= j < texts@.len() ==> #[trigger] texts@[j]@ == self.documents@[start + j].body@,
            decreases end - i,
        {
            texts.push(self.documents[i].body.clone());
            i = i + 1;
        }
        let input = EmbeddingInput::StringArray(texts);
        Some(client.create_embedding_request(input))
    }

    /// Turns the reply to the waiting batch into records: the record at
    /// position `i` of the batch pairs the document at position `start + i`
    /// of the whole input with the `i`-th embedding of the reply. A reply
    /// with too few embeddings fails and leaves the run where it was.
    pub fn accept_response(&mut self, response: &EmbeddingResponse) -> (r: Result<
        Vec<EmbeddingRecord>,
        SemanticSearchError,
    >)
        requires
            old(self).wf(),
        ensures
            final(self).wf(),
            final(self).documents_spec() == old(self).documents_spec(),
            final(self).num_batches_spec() == old(self).num_batches_spec(),
            old(self).finished_spec() ==> r == Err::<Vec<EmbeddingRecord>, SemanticSearchError>(
                SemanticSearchError::RunFinished,
            ),
            !old(self).finished_spec() && response.data@.len() < old(self).batch_end() - old(self).batch_start() ==> r == Err::<Vec<EmbeddingRecord>, SemanticSearchError>(
                SemanticSearchError::MissingEmbedding { index: response.data@.len() as usize },
            ),
            !old(self).finished_spec() && old(self).reply_complete(*response) ==> r is Ok,
            r is Err ==> final(self).next_spec() == old(self).next_spec(),
            r is Ok ==> r->Ok_0@.map_values(|x: EmbeddingRecord| record_view(x)) == old(self).batch_views(*response),
            r is Ok ==> {
                let recs = r->Ok_0;
                let s = old(self).batch_start();
                &&& !old(self).finished_spec()
                &&& response.data@.len() >= old(self).batch_end() - s
                &&& final(self).next_spec() == old(self).next_spec() + 1
                &&& final(self).processed_spec() == old(self).batch_end()
                &&& recs@.len() == old(self).batch_end() - s
                &&& forall|i: int|
                    0 <= i < recs@.len() ==> {
                        &&& (#[trigger] recs@[i]).name@ == old(self).documents_spec()[s + i].name@
                        &&& recs@[i].header@ == old(self).documents_spec()[s + i].header@
                        &&& texts_view(recs@[i].vector@) == texts_view(
                            response.data@[i].embedding@,
                        )
                    }
            },
    {
        if self.next >= self.batches.len() {
            return Err(SemanticSearchError::RunFinished);
        }
        let (start, end) = self.batches[self.next];
        proof {
            lemma_batch_within(&*self);
        }
        if response.data.len() < end - start {
            return Err(SemanticSearchError::MissingEmbedding { index: response.data.len() });
        }
        let mut recs: Vec<EmbeddingRecord> = Vec::new();
        let mut i: usize = 0;
        while i < end - start
            invariant
                start <= end <= self.documents@.len(),
                end - start <= response.data@.len(),
                i <= end - start,
                recs@.len() == i,
                forall|j: int|
                    0 <= j < i ==> {
                        &&& (#[trigger] recs@[j]).name@ == self.documents@[start + j].name@
                        &&& recs@[j].header@ == self.documents@[start + j].header@
                        &&& texts_view(recs@[j].vector@) == texts_view(
                            response.data@[j].embedding@,
                        )
                    },
            decreases end - start - i,
        {
            let doc = &self.documents[start + i];
            let vector = clone_texts(&response.data[i].embedding);
            recs.push(
                EmbeddingRecord { name: doc.name.clone(), header: doc.header.clone(), vector },
            );
            i = i + 1;
        }
        let ghost before = *self;
        self.next = self.next + 1;
        proof {
            lemma_next_start(&*self);
            assert(recs@.map_values(|x: EmbeddingRecord| record_view(x)) =~= before.batch_views(
                *response,
            ));
        }
        Ok(recs)
    }
}

/// What the driver of a store rebuild does next.
#[derive(Clone, Debug, PartialEq, Eq)]
pub enum RebuildStep {
    /// Delete the existing store.
    DeleteStore,
    /// Read the input table and hand it to `input_read`.
    ReadInput,
    /// Send this request and hand the reply to `replied`.
    Submit(EmbeddingRequest),
    /// Append this text to the store, then call `appended`.
    Append(String),
    /// The store holds every record.
    Finished,
    /// A batch's rows could not be put in the store format; the rebuild is over.
    Stopped,
}

/// A whole store rebuild: the store is deleted first, then each batch is
/// requested and its rows appended before the next batch is requested.
#[derive(Clone, Debug)]
pub struct Rebuild {
    command: GenerateEmbeddingsCommand,
    deleted: bool,
    run: Option<GenerationRun>,
    pending: Option<String>,
    appended: usize,
    failed: bool,
}

impl Rebuild {
    pub closed spec fn command_spec(&self) -> GenerateEmbeddingsCommand {
        self.command
    }

    pub closed spec fn deleted_spec(&self) -> bool {
        self.deleted
    }

    pub closed spec fn run_spec(&self) -> Option<GenerationRun> {
        self.run
    }

    pub closed spec fn pending_spec(&self) -> Option<String> {
        self.pending
    }

    /// How many documents have their rows in the store.
    pub closed spec fn appended_spec(&self) -> nat {
        self.appended as nat
    }

    /// A batch failed; the rebuild is over.
    pub closed spec fn failed_spec(&self) -> bool {
        self.failed
    }

    /// The generation run, once started.
    pub open spec fn current(&self) -> GenerationRun {
        self.run_spec()->Some_0
    }

    pub closed spec fn wf(&self) -> bool {
        &&& self.run is Some ==> self.deleted && self.run->Some_0.wf()
        &&& self.run is None ==> self.pending is None && self.appended == 0 && !self.failed
        &&& self.failed ==> self.pending is None
        &&& self.run is Some && self.pending is None && !self.failed ==> self.appended
            == self.run->Some_0.processed_spec()
        &&& self.run is Some && self.pending is Some ==> self.appended
            <= self.run->Some_0.processed_spec()
    }

    /// A rebuild that has done nothing yet.
    pub fn new(command: GenerateEmbeddingsCommand) -> (r: Self)
        ensures
            r.wf(),
            r.command_spec() == command,
            !r.deleted_spec(),
            !r.failed_spec(),
            r.run_spec() is None,
            r.pending_spec() is None,
            r.appended_spec() == 0,
    {
        Rebuild { command, deleted: false, run: None, pending: None, appended: 0, failed: false }
    }

    pub fn command(&self) -> (r: &GenerateEmbeddingsCommand)
        ensures
            *r == self.command_spec(),
    {
        &self.command
    }

    /// The next thing to do. The store is deleted before anything else;
    /// each batch is requested once, in order, and its rows are appended
    /// before the next batch is requested.
    pub fn next_step(&self) -> (r: RebuildStep)
        requires
            self.wf(),
        ensures
            r == RebuildStep::DeleteStore <==> !self.deleted_spec(),
            r == RebuildStep::ReadInput <==> self.deleted_spec() && self.run_spec() is None,
            r == RebuildStep::Stopped <==> self.deleted_spec() && self.failed_spec(),
            r is Append <==> self.deleted_spec() && self.pending_spec() is Some,
            r is Append ==> r->Append_0 == self.pending_spec()->Some_0,
            r is Submit <==> self.deleted_spec() && !self.failed_spec() && self.run_spec() is Some
                && self.pending_spec() is None && !self.current().finished_spec(),
            r is Submit ==> self.current().requests_batch(r->Submit_0),
            r is Finished <==> self.deleted_spec() && !self.failed_spec() && self.run_spec() is Some
                && self.pending_spec() is None && self.current().finished_spec(),
            r is Finished ==> self.appended_spec() == self.current().documents_spec().len(),
    {
        if !self.deleted {
            return RebuildStep::DeleteStore;
        }
        if self.failed {
            return RebuildStep::Stopped;
        }
        match &self.run {
            None => RebuildStep::ReadInput,
            Some(run) => match &self.pending {
                Some(text) => RebuildStep::Append(text.clone()),
                None => match run.next_request(self.command.client()) {
                    Some(req) => RebuildStep::Submit(req),
                    None => RebuildStep::Finished,
                },
            },
        }
    }

    /// The store has been deleted.
    pub fn store_deleted(&mut self)
        requires
            old(self).wf(),
        ensures
            final(self).wf(),
            final(self).deleted_spec(),
            final(self).command_spec() == old(self).command_spec(),
            final(self).run_spec() == old(self).run_spec(),
            final(self).pending_spec() == old(self).pending_spec(),
            final(self).failed_spec() == old(self).failed_spec(),
            final(self).appended_spec() == old(self).appended_spec(),
    {
        self.deleted = true;
    }

    /// The input table has been read: the run starts, with the same outcome
    /// as `start_run`. A run without documents first appends an empty text,
    /// so that the store exists, empty.
    pub fn input_read(&mut self, input: &str) -> (r: Result<(), SemanticSearchError>)
        requires
            old(self).wf(),
            old(self).deleted_spec(),
            old(self).run_spec() is None,
        ensures
            final(self).wf(),
            final(self).deleted_spec(),
            !final(self).failed_spec(),
            final(self).appended_spec() == 0,
            final(self).command_spec() == old(self).command_spec(),
            old(self).command_spec().num_batches_spec() == 0 ==> r == Err::<(), SemanticSearchError>(
                SemanticSearchError::InvalidBatchCount,
            ),
            r is Err ==> final(self).run_spec() is None && final(self).pending_spec() is None,
            old(self).command_spec().num_batches_spec() >= 1 ==> match r {
                Ok(_) => {
                    &&& final(self).run_spec() is Some
                    &&& final(self).current().wf()
                    &&& final(self).current().next_spec() == 0
                    &&& final(self).current().num_batches_spec() == old(self).command_spec().num_batches_spec()
                    &&& documents_outcome(
                        csv_records(input@, true),
                        Ok::<Vec<Document>, SemanticSearchError>(final(self).current().documents_vec()),
                    )
                    &&& (final(self).pending_spec() is Some <==> final(self).current().documents_spec().len() == 0)
                    &&& final(self).pending_spec() is Some ==> final(self).pending_spec()->Some_0@.len() == 0
                },
                Err(e) => documents_outcome(
                    csv_records(input@, true),
                    Err::<Vec<Document>, SemanticSearchError>(e),
                ),
            },
    {
        let run = match self.command.start_run(input) {
            Ok(run) => run,
            Err(e) => {
                return Err(e);
            },
        };
        proof {
            if !run.finished_spec() {
                assert(0 * batch_size_spec(run.documents_spec().len(), run.num_batches_spec() as nat) == 0);
            } else if run.documents_spec().len() > 0 {
                crate::batch::lemma_size_facts(run.documents_spec().len(), run.num_batches_spec() as nat);
            }
        }
        if run.documents().len() == 0 {
            self.pending = Some(String::new());
        }
        self.run = Some(run);
        Ok(())
    }

    /// The reply to the submitted request has come. A complete reply turns
    /// into the store text of the batch's records, which waits to be
    /// appended, and the run moves to the next batch. Anything else ends the
    /// rebuild with nothing added to the store, and no retry.
    pub fn replied(&mut self, response: &EmbeddingResponse) -> (r: Result<(), SemanticSearchError>)
        requires
            old(self).wf(),
            old(self).run_spec() is Some,
            old(self).pending_spec() is None,
        ensures
            final(self).wf(),
            final(self).deleted_spec(),
            final(self).appended_spec() == old(self).appended_spec(),
            final(self).command_spec() == old(self).command_spec(),
            final(self).run_spec() is Some,
            final(self).current().documents_spec() == old(self).current().documents_spec(),
            final(self).current().num_batches_spec() == old(self).current().num_batches_spec(),
            old(self).failed_spec() ==> r == Err::<(), SemanticSearchError>(SemanticSearchError::StoreWrite)
                && final(self).run_spec() == old(self).run_spec(),
            !old(self).failed_spec() && old(self).current().finished_spec() ==> r == Err::<
                (),
                SemanticSearchError,
            >(SemanticSearchError::RunFinished),
            !old(self).failed_spec() && !old(self).current().finished_spec() && !old(self).current().reply_complete(*response) ==> r == Err::<(), SemanticSearchError>(
                SemanticSearchError::MissingEmbedding { index: response.data@.len() as usize },
            ) && final(self).current().next_spec() == old(self).current().next_spec(),
            !old(self).failed_spec() && !old(self).current().finished_spec() && old(self).current().reply_complete(*response) ==> match store_text_of(
                old(self).current().batch_views(*response),
            ) {
                Some(t) => r is Ok && final(self).pending_spec() is Some && final(self).pending_spec()->Some_0@ == t,
                None => r == Err::<(), SemanticSearchError>(SemanticSearchError::StoreWrite),
            },
            r is Ok ==> final(self).current().next_spec() == old(self).current().next_spec() + 1
                && final(self).current().processed_spec() == old(self).current().batch_end()
                && !final(self).failed_spec(),
            r is Err ==> final(self).failed_spec() && final(self).pending_spec() is None,
    {
        if self.failed {
            return Err(SemanticSearchError::StoreWrite);
        }
        let mut run = self.run.take().unwrap();
        proof {
            if !run.finished_spec() {
                lemma_batch_within(&run);
            }
        }
        let result = run.accept_response(response);
        match result {
            Ok(records) => {
                let text = store_text(&records);
                proof {
                    lemma_store_text_views(records@);
                }
                self.run = Some(run);
                match text {
                    Ok(t) => {
                        self.pending = Some(t);
                        Ok(())
                    },
                    Err(e) => {
                        self.failed = true;
                        Err(e)
                    },
                }
            },
            Err(e) => {
                self.run = Some(run);
                self.failed = true;
                Err(e)
            },
        }
    }

    /// The pending text is in the store.
    pub fn appended(&mut self)
        requires
            old(self).wf(),
            old(self).pending_spec() is Some,
        ensures
            final(self).wf(),
            final(self).deleted_spec(),
            final(self).pending_spec() is None,
            final(self).command_spec() == old(self).command_spec(),
            final(self).run_spec() == old(self).run_spec(),
            final(self).appended_spec() == old(self).current().processed_spec(),
            final(self).failed_spec() == old(self).failed_spec(),
    {
        self.pending = None;
        let run = self.run.as_ref().unwrap();
        self.appended = run.processed();
    }
}

/// A copy of a list of texts.
fn clone_texts(v: &Vec<String>) -> (r: Vec<String>)
    ensures
        texts_view(r@) == texts_view(v@),
{
    let mut out: Vec<String> = Vec::new();
    let mut i: usize = 0;
    while i < v.len()
        invariant
            i <= v@.len(),
            out@.len() == i,
            forall|j: int| 0 <= j < i ==> #[trigger] out@[j]@ == v@[j]@,
        decreases v@.len() - i,
    {
        out.push(v[i].clone());
        i = i + 1;
    }
    assert(texts_view(out@) =~= texts_view(v@));
    out
}

/// The waiting batch lies inside the documents, and is the one `batch_start` names.
proof fn lemma_batch_within(run: &GenerationRun)
    requires
        run.wf(),
        !run.finished_spec(),
    ensures
        run.batches@[run.next as int].0 == run.batch_start(),
        run.batches@[run.next as int].1 == run.batch_end(),
        run.batch_start() <= run.batch_end() <= run.documents@.len(),
{
    let n = run.documents@.len();
    let b = run.num_batches as nat;
    crate::batch::lemma_batch_bounds(n, b, run.next as nat);
}

/// After a batch is answered, the next batch starts where it ended.
proof fn lemma_next_start(run: &GenerationRun)
    requires
        run.wf(),
        run.next >= 1,
    ensures
        run.processed_spec() == batch_end_spec(
            run.documents@.len(),
            run.num_batches as nat,
            (run.next - 1) as nat,
        ),
{
    let n = run.documents@.len();
    let b = run.num_batches as nat;
    crate::batch::lemma_batch_bounds(n, b, (run.next - 1) as nat);
    if run.next < run.batches@.len() {
        crate::batch::lemma_batch_bounds(n, b, run.next as nat);
    }
}

} // verus!
